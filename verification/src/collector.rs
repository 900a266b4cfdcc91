//! The symbol collector: an iterative worklist walk over the resolved
//! module tree of the semantic database, emitting one record per named
//! declaration. Before each work item it polls the database's cancellation
//! flag and aborts with `Cancelled` when the flag is set.
//!
//! Termination: each work item carries a weight — one plus the weights of
//! everything it can enqueue — and the database's nesting numbering (nested
//! modules carry larger ids) makes the weights well-defined. Every processed
//! item lowers the summed weight of the stack by exactly one.
use vstd::prelude::*;
use vstd::multiset::Multiset;
use crate::symbols::{FileSymbol, FileSymbolKind, DeclarationLocation, SymbolView};
use crate::semantics::{SymbolsDatabase, SourceInfo, ItemSource, Container, ScopeDecl, AssocItem,
    MacroData};

verus! {

/// The innermost container name of a walk whose stack holds these names.
pub open spec fn stack_top(stack: Seq<String>) -> Option<Seq<char>> {
    if stack.len() > 0 {
        Some(stack.last()@)
    } else {
        None
    }
}

/// The declared name of the item owning a body, as the database reports it.
pub open spec fn body_name(db: SymbolsDatabase, b: int) -> Option<Seq<char>> {
    match db.bodies@[b].name {
        Some(n) => Some(n@),
        None => None,
    }
}

/// The record `s` renders the source lookup `src` under `kind`: the lookup
/// names the declaration, and the record carries that name and the lookup's
/// file and node locations. (The container name is not constrained here: it
/// comes from the walk context, not from the lookup.)
pub open spec fn renders(src: SourceInfo, kind: FileSymbolKind, s: SymbolView) -> bool {
    match src.name {
        Some(n) => {
            &&& s.name == n.text@
            &&& s.kind == kind
            &&& s.loc.hir_file_id == src.hir_file_id
            &&& s.loc.ptr == src.ptr
            &&& s.loc.name_ptr == n.ptr
        },
        None => false,
    }
}

/// The record `s` renders a macro declaration: the name as the database
/// knows it, the locations from the definition's source.
pub open spec fn macro_renders(md: MacroData, s: SymbolView) -> bool {
    match md.name {
        Some(name) => match md.src {
            Some(src) => match src.name {
                Some(n) => {
                    &&& s.name == name@
                    &&& s.kind == FileSymbolKind::Macro
                    &&& s.loc.hir_file_id == src.hir_file_id
                    &&& s.loc.ptr == src.ptr
                    &&& s.loc.name_ptr == n.ptr
                },
                None => false,
            },
            None => false,
        },
        None => false,
    }
}

/// The record `s` renders one scope declaration, under the kind the
/// collector assigns to that declaration.
pub open spec fn decl_emits(db: SymbolsDatabase, d: ScopeDecl, s: SymbolView) -> bool {
    match d {
        ScopeDecl::Module { module_id } => module_id < db.modules@.len()
            && match db.modules@[module_id as int].declaration {
            Some(src) => renders(src, FileSymbolKind::Module, s),
            None => false,
        },
        ScopeDecl::Function { item, body_id } => renders(item.src, FileSymbolKind::Function, s),
        ScopeDecl::Struct { src } => renders(src, FileSymbolKind::Struct, s),
        ScopeDecl::Enum { src } => renders(src, FileSymbolKind::Enum, s),
        ScopeDecl::Union { src } => renders(src, FileSymbolKind::Union, s),
        ScopeDecl::Const { item, body_id } => renders(item.src, FileSymbolKind::Const, s),
        ScopeDecl::Static { src, body_id } => renders(src, FileSymbolKind::Static, s),
        ScopeDecl::Trait { src, trait_id } => renders(src, FileSymbolKind::Trait, s),
        ScopeDecl::TypeAlias { item } => renders(item.src, FileSymbolKind::TypeAlias, s),
        ScopeDecl::BuiltinType => false,
        ScopeDecl::EnumVariant => false,
    }
}

/// The record `s` renders one associated item of an impl or trait.
pub open spec fn assoc_emits(it: AssocItem, s: SymbolView) -> bool {
    match it {
        AssocItem::Function(item) => renders(item.src, FileSymbolKind::Function, s),
        AssocItem::Const(item) => renders(item.src, FileSymbolKind::Const, s),
        AssocItem::TypeAlias(item) => renders(item.src, FileSymbolKind::TypeAlias, s),
    }
}

/// The record `s` renders some named declaration of the database: a scope
/// declaration, an associated item of an impl or trait, or a macro.
pub open spec fn emitted_by(db: SymbolsDatabase, s: SymbolView) -> bool {
    ||| exists|m: int, x: int|
        0 <= m < db.modules@.len() && 0 <= x < db.modules@[m].scope.declarations@.len()
            && decl_emits(db, #[trigger] db.modules@[m].scope.declarations@[x], s)
    ||| exists|t: int, x: int|
        0 <= t < db.impls@.len() && 0 <= x < db.impls@[t].items@.len() && assoc_emits(
            #[trigger] db.impls@[t].items@[x],
            s,
        )
    ||| exists|t: int, x: int|
        0 <= t < db.traits@.len() && 0 <= x < db.traits@[t].items@.len() && assoc_emits(
            #[trigger] db.traits@[t].items@[x],
            s,
        )
    ||| exists|m: int, x: int|
        0 <= m < db.modules@.len() && 0 <= x < db.modules@[m].scope.macro_declarations@.len()
            && macro_renders(#[trigger] db.modules@[m].scope.macro_declarations@[x], s)
}

/// The record one source lookup yields under a kind and a container name:
/// a one-record multiset when the lookup names the declaration, empty
/// otherwise.
pub open spec fn rendered_record(
    src: SourceInfo,
    kind: FileSymbolKind,
    container: Option<Seq<char>>,
) -> Multiset<SymbolView> {
    match src.name {
        Some(n) => Multiset::singleton(
            SymbolView {
                name: n.text@,
                kind,
                container_name: container,
                loc: DeclarationLocation {
                    hir_file_id: src.hir_file_id,
                    ptr: src.ptr,
                    name_ptr: n.ptr,
                },
            },
        ),
        None => Multiset::empty(),
    }
}

/// The container name of an item with a container: the declaration name of
/// the containing module, or the source name of the containing trait; an
/// anonymous container (an impl, an undeclared module) falls back to the
/// walk context.
pub open spec fn assoc_container(
    db: SymbolsDatabase,
    c: Container,
    ctx: Option<Seq<char>>,
) -> Option<Seq<char>> {
    match c {
        Container::Module(mid) => match db.modules@[mid as int].declaration {
            Some(src) => match src.name {
                Some(n) => Some(n.text@),
                None => ctx,
            },
            None => ctx,
        },
        Container::Trait(tid) => match db.traits@[tid as int].src.name {
            Some(n) => Some(n.text@),
            None => ctx,
        },
        Container::Impl(_) => ctx,
    }
}

/// The record a macro declaration yields under a container name.
pub open spec fn macro_record(md: MacroData, ctx: Option<Seq<char>>) -> Multiset<SymbolView> {
    match md.name {
        Some(name) => match md.src {
            Some(src) => match src.name {
                Some(n) => Multiset::singleton(
                    SymbolView {
                        name: name@,
                        kind: FileSymbolKind::Macro,
                        container_name: ctx,
                        loc: DeclarationLocation {
                            hir_file_id: src.hir_file_id,
                            ptr: src.ptr,
                            name_ptr: n.ptr,
                        },
                    },
                ),
                None => Multiset::empty(),
            },
            None => Multiset::empty(),
        },
        None => Multiset::empty(),
    }
}

/// The record one associated item yields under a walk context.
pub open spec fn assoc_item_record(
    db: SymbolsDatabase,
    it: AssocItem,
    ctx: Option<Seq<char>>,
) -> Multiset<SymbolView> {
    match it {
        AssocItem::Function(item) => rendered_record(
            item.src,
            FileSymbolKind::Function,
            assoc_container(db, item.container, ctx),
        ),
        AssocItem::Const(item) => rendered_record(
            item.src,
            FileSymbolKind::Const,
            assoc_container(db, item.container, ctx),
        ),
        AssocItem::TypeAlias(item) => rendered_record(
            item.src,
            FileSymbolKind::TypeAlias,
            assoc_container(db, item.container, ctx),
        ),
    }
}

/// The record one scope declaration emits (not counting the work it
/// enqueues) under a walk context.
pub open spec fn decl_record(
    db: SymbolsDatabase,
    d: ScopeDecl,
    ctx: Option<Seq<char>>,
) -> Multiset<SymbolView> {
    match d {
        ScopeDecl::Module { module_id } => match db.modules@[module_id as int].declaration {
            Some(src) => rendered_record(src, FileSymbolKind::Module, ctx),
            None => Multiset::empty(),
        },
        ScopeDecl::Function { item, body_id } => rendered_record(
            item.src,
            FileSymbolKind::Function,
            assoc_container(db, item.container, ctx),
        ),
        ScopeDecl::Struct { src } => rendered_record(src, FileSymbolKind::Struct, ctx),
        ScopeDecl::Enum { src } => rendered_record(src, FileSymbolKind::Enum, ctx),
        ScopeDecl::Union { src } => rendered_record(src, FileSymbolKind::Union, ctx),
        ScopeDecl::Const { item, body_id } => rendered_record(
            item.src,
            FileSymbolKind::Const,
            assoc_container(db, item.container, ctx),
        ),
        ScopeDecl::Static { src, body_id } => rendered_record(src, FileSymbolKind::Static, ctx),
        ScopeDecl::Trait { src, trait_id } => rendered_record(src, FileSymbolKind::Trait, ctx),
        ScopeDecl::TypeAlias { item } => rendered_record(
            item.src,
            FileSymbolKind::TypeAlias,
            assoc_container(db, item.container, ctx),
        ),
        ScopeDecl::BuiltinType => Multiset::empty(),
        ScopeDecl::EnumVariant => Multiset::empty(),
    }
}

/// The records of the items of an impl or trait from position `i` on.
pub open spec fn collected_items(
    db: SymbolsDatabase,
    items: Seq<AssocItem>,
    ctx: Option<Seq<char>>,
    i: int,
) -> Multiset<SymbolView>
    decreases items.len() - i,
{
    if 0 <= i < items.len() {
        assoc_item_record(db, items[i], ctx).add(collected_items(db, items, ctx, i + 1))
    } else {
        Multiset::empty()
    }
}

/// The records of one impl block: its items, with the walk stack empty.
pub open spec fn collected_impl(db: SymbolsDatabase, im: int) -> Multiset<SymbolView> {
    if 0 <= im < db.impls@.len() {
        collected_items(db, db.impls@[im].items@, None, 0)
    } else {
        Multiset::empty()
    }
}

/// The container context of a trait's items: the trait's database name,
/// where it has one.
pub open spec fn trait_ctx(db: SymbolsDatabase, tr: int) -> Option<Seq<char>> {
    match db.traits@[tr].name {
        Some(n) => Some(n@),
        None => None,
    }
}

/// The records of one trait work item: its items under the trait's name.
pub open spec fn collected_trait(db: SymbolsDatabase, tr: int) -> Multiset<SymbolView> {
    if 0 <= tr < db.traits@.len() {
        collected_items(db, db.traits@[tr].items@, trait_ctx(db, tr), 0)
    } else {
        Multiset::empty()
    }
}

/// The records of the macro declarations of module `m` from position `i` on.
pub open spec fn collected_macros(
    db: SymbolsDatabase,
    m: int,
    ctx: Option<Seq<char>>,
    i: int,
) -> Multiset<SymbolView>
    decreases db.modules@[m].scope.macro_declarations@.len() - i,
{
    if 0 <= m < db.n_modules() && 0 <= i < db.modules@[m].scope.macro_declarations@.len() {
        macro_record(db.modules@[m].scope.macro_declarations@[i], ctx).add(
            collected_macros(db, m, ctx, i + 1),
        )
    } else {
        Multiset::empty()
    }
}

/// Every record of the walk of module `m` under a container context: its
/// own scope's emissions plus everything the enqueued bodies, traits and
/// impls produce in turn. The recursion is grounded on the same nesting
/// numbering as the work weights.
pub open spec fn collected_module(
    db: SymbolsDatabase,
    m: int,
    ctx: Option<Seq<char>>,
) -> Multiset<SymbolView>
    decreases db.n_modules() - m, 0int, 0int,
{
    if 0 <= m < db.n_modules() {
        collected_decls(db, m, ctx, 0).add(collected_unnamed(db, m, 0)).add(
            collected_impls_of(db, m, 0),
        ).add(collected_macros(db, m, ctx, 0))
    } else {
        Multiset::empty()
    }
}

/// The records of module `m`'s scope declarations from position `i` on:
/// each declaration's own record plus, for the declarations that enqueue a
/// body or a trait, the records of that work.
pub open spec fn collected_decls(
    db: SymbolsDatabase,
    m: int,
    ctx: Option<Seq<char>>,
    i: int,
) -> Multiset<SymbolView>
    decreases db.n_modules() - m - 1, 2int, db.modules@[m].scope.declarations@.len() - i,
{
    if 0 <= m < db.n_modules() && 0 <= i < db.modules@[m].scope.declarations@.len() {
        let d = db.modules@[m].scope.declarations@[i];
        decl_record(db, d, ctx).add(
            match d {
                ScopeDecl::Function { item, body_id } => collected_body(db, m, body_id as int),
                ScopeDecl::Const { item, body_id } => collected_body(db, m, body_id as int),
                ScopeDecl::Static { src, body_id } => collected_body(db, m, body_id as int),
                ScopeDecl::Trait { src, trait_id } => collected_trait(db, trait_id as int),
                _ => Multiset::empty(),
            },
        ).add(collected_decls(db, m, ctx, i + 1))
    } else {
        Multiset::empty()
    }
}

/// The records of the bodies of module `m`'s unnamed constants from
/// position `i` on.
pub open spec fn collected_unnamed(db: SymbolsDatabase, m: int, i: int) -> Multiset<SymbolView>
    decreases db.n_modules() - m - 1, 2int, db.modules@[m].scope.unnamed_consts@.len() - i,
{
    if 0 <= m < db.n_modules() && 0 <= i < db.modules@[m].scope.unnamed_consts@.len() {
        collected_body(db, m, db.modules@[m].scope.unnamed_consts@[i] as int).add(
            collected_unnamed(db, m, i + 1),
        )
    } else {
        Multiset::empty()
    }
}

/// The records of module `m`'s impl blocks from position `i` on.
pub open spec fn collected_impls_of(db: SymbolsDatabase, m: int, i: int) -> Multiset<SymbolView>
    decreases db.modules@[m].scope.impls@.len() - i,
{
    if 0 <= m < db.n_modules() && 0 <= i < db.modules@[m].scope.impls@.len() {
        collected_impl(db, db.modules@[m].scope.impls@[i] as int).add(
            collected_impls_of(db, m, i + 1),
        )
    } else {
        Multiset::empty()
    }
}

/// The records of a body enqueued under module `floor`: the walks of its
/// nested modules, each under the body's declared name.
pub open spec fn collected_body(db: SymbolsDatabase, floor: int, b: int) -> Multiset<SymbolView>
    decreases db.n_modules() - floor - 1, 1int, 0int,
{
    if 0 <= floor < db.n_modules() && 0 <= b < db.bodies@.len() {
        collected_nested(db, floor, b, 0)
    } else {
        Multiset::empty()
    }
}

/// The records of body `b`'s nested modules from position `i` on.
pub open spec fn collected_nested(
    db: SymbolsDatabase,
    floor: int,
    b: int,
    i: int,
) -> Multiset<SymbolView>
    decreases db.n_modules() - floor - 1, 0int, db.bodies@[b].nested_modules@.len() - i,
{
    if 0 <= floor < db.n_modules() && 0 <= b < db.bodies@.len() && 0 <= i < db.bodies@[b].nested_modules@.len() {
        (if floor < db.bodies@[b].nested_modules@[i] < db.n_modules() {
            collected_module(db, db.bodies@[b].nested_modules@[i] as int, body_name(db, b))
        } else {
            Multiset::empty()
        }).add(collected_nested(db, floor, b, i + 1))
    } else {
        Multiset::empty()
    }
}

/// Every record of the walk that starts at module `m` with an empty
/// container stack: what `collect` returns when not cancelled.
pub open spec fn collected(db: SymbolsDatabase, m: int) -> Multiset<SymbolView> {
    collected_module(db, m, None)
}

/// The cancellation sentinel: the database's flag was set, the walk stopped
/// at a work-item boundary, and the partial output was discarded.
#[derive(Clone, Copy, PartialEq, Eq, Debug, Structural)]
pub struct Cancelled;

/// One unit of pending work. A `Body` item remembers (as ghost data) the
/// module under which it was enqueued; the nesting numbering then bounds
/// the ids of the modules it can enqueue in turn.
enum SymbolCollectorWork {
    Module { module_id: usize, parent: Option<usize> },
    Body { body_id: usize, floor: Ghost<int> },
    Impl { impl_id: usize },
    Trait { trait_id: usize },
}

/// The weight of module `m`: one plus the weights of everything its scope
/// enqueues (bodies, traits, impls).
pub open spec fn weight_module(db: SymbolsDatabase, m: int) -> nat
    decreases db.n_modules() - m, 0int, 0int,
{
    if 0 <= m < db.n_modules() {
        1 + sum_decl_weights(db, m, 0) + sum_unnamed_weights(db, m, 0)
            + db.modules@[m].scope.impls@.len()
    } else {
        1
    }
}

/// The summed weights of the work enqueued by the scope declarations of
/// module `m` from position `i` on.
pub open spec fn sum_decl_weights(db: SymbolsDatabase, m: int, i: int) -> nat
    decreases db.n_modules() - m - 1, 2int, db.modules@[m].scope.declarations@.len() - i,
{
    if 0 <= m < db.n_modules() && 0 <= i < db.modules@[m].scope.declarations@.len() {
        (match db.modules@[m].scope.declarations@[i] {
            ScopeDecl::Function { item, body_id } => weight_body(db, m, body_id as int),
            ScopeDecl::Const { item, body_id } => weight_body(db, m, body_id as int),
            ScopeDecl::Static { src, body_id } => weight_body(db, m, body_id as int),
            ScopeDecl::Trait { .. } => 1nat,
            _ => 0nat,
        }) + sum_decl_weights(db, m, i + 1)
    } else {
        0
    }
}

/// The summed weights of the bodies of module `m`'s unnamed constants from
/// position `i` on.
pub open spec fn sum_unnamed_weights(db: SymbolsDatabase, m: int, i: int) -> nat
    decreases db.n_modules() - m - 1, 2int, db.modules@[m].scope.unnamed_consts@.len() - i,
{
    if 0 <= m < db.n_modules() && 0 <= i < db.modules@[m].scope.unnamed_consts@.len() {
        weight_body(db, m, db.modules@[m].scope.unnamed_consts@[i] as int) + sum_unnamed_weights(
            db,
            m,
            i + 1,
        )
    } else {
        0
    }
}

/// The weight of a body enqueued under module `floor`: one plus the weights
/// of the nested modules it enqueues.
pub open spec fn weight_body(db: SymbolsDatabase, floor: int, b: int) -> nat
    decreases db.n_modules() - floor - 1, 1int, 0int,
{
    if 0 <= floor < db.n_modules() && 0 <= b < db.bodies@.len() {
        1 + sum_nested_weights(db, floor, b, 0)
    } else {
        1
    }
}

/// The summed weights of body `b`'s nested modules from position `i` on.
pub open spec fn sum_nested_weights(db: SymbolsDatabase, floor: int, b: int, i: int) -> nat
    decreases db.n_modules() - floor - 1, 0int, db.bodies@[b].nested_modules@.len() - i,
{
    if 0 <= floor < db.n_modules() && 0 <= b < db.bodies@.len() && 0 <= i < db.bodies@[b].nested_modules@.len() {
        (if floor < db.bodies@[b].nested_modules@[i] < db.n_modules() {
            weight_module(db, db.bodies@[b].nested_modules@[i] as int)
        } else {
            1nat
        }) + sum_nested_weights(db, floor, b, i + 1)
    } else {
        0
    }
}

/// The weight of one work item.
spec fn work_weight(db: SymbolsDatabase, w: SymbolCollectorWork) -> nat {
    match w {
        SymbolCollectorWork::Module { module_id, parent } => weight_module(db, module_id as int),
        SymbolCollectorWork::Body { body_id, floor } => weight_body(db, floor@, body_id as int),
        SymbolCollectorWork::Impl { impl_id } => 1,
        SymbolCollectorWork::Trait { trait_id } => 1,
    }
}

/// The summed weight of a worklist.
spec fn stack_weight(db: SymbolsDatabase, work: Seq<SymbolCollectorWork>) -> nat
    decreases work.len(),
{
    if work.len() == 0 {
        0
    } else {
        stack_weight(db, work.drop_last()) + work_weight(db, work.last())
    }
}

/// Pushing one item adds its weight.
proof fn lemma_stack_weight_push(
    db: SymbolsDatabase,
    work: Seq<SymbolCollectorWork>,
    item: SymbolCollectorWork,
)
    ensures
        stack_weight(db, work.push(item)) == stack_weight(db, work) + work_weight(db, item),
{
    assert(work.push(item).drop_last() =~= work);
    assert(work.push(item).last() == item);
}

/// The records one work item will produce, directly and through everything
/// it enqueues.
spec fn work_records(db: SymbolsDatabase, w: SymbolCollectorWork) -> Multiset<SymbolView> {
    match w {
        SymbolCollectorWork::Module { module_id, parent } => collected_module(
            db,
            module_id as int,
            match parent {
                Some(b) => body_name(db, b as int),
                None => None,
            },
        ),
        SymbolCollectorWork::Body { body_id, floor } => collected_body(db, floor@, body_id as int),
        SymbolCollectorWork::Impl { impl_id } => collected_impl(db, impl_id as int),
        SymbolCollectorWork::Trait { trait_id } => collected_trait(db, trait_id as int),
    }
}

/// The records the whole worklist will produce.
spec fn stack_records(db: SymbolsDatabase, work: Seq<SymbolCollectorWork>) -> Multiset<SymbolView>
    decreases work.len(),
{
    if work.len() == 0 {
        Multiset::empty()
    } else {
        stack_records(db, work.drop_last()).add(work_records(db, work.last()))
    }
}

/// Pushing one item adds its records.
proof fn lemma_stack_records_push(
    db: SymbolsDatabase,
    work: Seq<SymbolCollectorWork>,
    item: SymbolCollectorWork,
)
    ensures
        stack_records(db, work.push(item)) == stack_records(db, work).add(work_records(db, item)),
{
    assert(work.push(item).drop_last() =~= work);
    assert(work.push(item).last() == item);
}

/// A work item references only existing entities; a `Body` item's nested
/// modules lie strictly above its floor.
spec fn work_wf(db: SymbolsDatabase, w: SymbolCollectorWork) -> bool {
    match w {
        SymbolCollectorWork::Module { module_id, parent } => module_id < db.modules@.len()
            && match parent {
            Some(b) => b < db.bodies@.len(),
            None => true,
        },
        SymbolCollectorWork::Body { body_id, floor } => 0 <= floor@ < db.n_modules() && db.body_wf(
            floor@,
            body_id as int,
        ),
        SymbolCollectorWork::Impl { impl_id } => impl_id < db.impls@.len(),
        SymbolCollectorWork::Trait { trait_id } => trait_id < db.traits@.len(),
    }
}

/// Walks the module tree reachable from one module and accumulates the
/// records to index.
struct SymbolCollector<'a> {
    db: &'a SymbolsDatabase,
    symbols: Vec<FileSymbol>,
    work: Vec<SymbolCollectorWork>,
    container_name_stack: Vec<String>,
}

impl<'a> SymbolCollector<'a> {
    /// Everything on the worklist is well-formed against a well-formed
    /// database, and every record emitted so far renders a named
    /// declaration of the database.
    spec fn inv(self) -> bool {
        &&& self.db.wf()
        &&& forall|x: int|
            0 <= x < self.work@.len() ==> work_wf(*self.db, #[trigger] self.work@[x])
        &&& forall|x: int|
            0 <= x < self.symbols.deep_view().len() ==> emitted_by(
                *self.db,
                #[trigger] self.symbols.deep_view()[x],
            )
    }

    /// Collects all symbols that should be indexed for the given module:
    /// pops work items until the list is empty, polling the cancellation
    /// flag before each one.
    pub fn collect(db: &'a SymbolsDatabase, module_id: usize) -> (r: Result<
        Vec<FileSymbol>,
        Cancelled,
    >)
        requires
            db.wf(),
            module_id < db.modules@.len(),
        ensures
            r is Err <==> db.cancelled,
            r matches Ok(v) ==> forall|x: int|
                0 <= x < v.deep_view().len() ==> emitted_by(*db, #[trigger] v.deep_view()[x]),
            r matches Ok(v) ==> v.deep_view().to_multiset() == collected(*db, module_id as int),
    {
        let mut c = SymbolCollector {
            db,
            symbols: Vec::new(),
            work: Vec::new(),
            container_name_stack: Vec::new(),
        };
        proof {
            c.symbols.deep_view().to_multiset_ensures();
            assert(c.symbols.deep_view().to_multiset() =~= Multiset::<SymbolView>::empty());
            assert(stack_records(*db, c.work@) =~= Multiset::<SymbolView>::empty());
        }
        let ghost start = SymbolCollectorWork::Module { module_id, parent: None };
        c.work.push(SymbolCollectorWork::Module { module_id, parent: None });
        proof {
            lemma_stack_records_push(*db, Seq::empty(), start);
            assert(c.work@ =~= Seq::empty().push(start));
            assert(work_records(*db, start) == collected(*db, module_id as int));
            assert(c.symbols.deep_view().to_multiset().add(stack_records(*db, c.work@))
                =~= collected(*db, module_id as int));
        }
        while c.work.len() > 0
            invariant
                c.db == db,
                c.inv(),
                c.container_name_stack@.len() == 0,
                db.cancelled ==> c.work@.len() > 0,
                c.symbols.deep_view().to_multiset().add(stack_records(*db, c.work@)) == collected(
                    *db,
                    module_id as int,
                ),
            decreases stack_weight(*db, c.work@),
        {
            let ghost pre = c.work@;
            let w = c.work.pop().unwrap();
            proof {
                assert(pre.drop_last() =~= c.work@);
                assert(stack_weight(*db, pre) == stack_weight(*db, c.work@) + work_weight(*db, w));
                assert(stack_records(*db, pre) == stack_records(*db, c.work@).add(
                    work_records(*db, w),
                ));
            }
            let ghost spre = c.symbols.deep_view().to_multiset();
            let ghost rpre = stack_records(*db, c.work@);
            match c.do_work(w) {
                Ok(()) => {
                    proof {
                        assert(spre.add(rpre.add(work_records(*db, w))) =~= spre.add(rpre).add(
                            work_records(*db, w),
                        ));
                    }
                },
                Err(e) => {
                    return Err(e);
                },
            }
        }
        proof {
            assert(stack_records(*db, c.work@) =~= Multiset::<SymbolView>::empty());
            assert(c.symbols.deep_view().to_multiset().add(Multiset::empty())
                =~= c.symbols.deep_view().to_multiset());
        }
        Ok(c.symbols)
    }

    /// Dispatches one work item; polls the cancellation flag first.
    fn do_work(&mut self, work: SymbolCollectorWork) -> (r: Result<(), Cancelled>)
        requires
            old(self).inv(),
            work_wf(*old(self).db, work),
            old(self).container_name_stack@.len() == 0,
        ensures
            final(self).inv(),
            final(self).db == old(self).db,
            final(self).container_name_stack@ == old(self).container_name_stack@,
            r is Err <==> old(self).db.cancelled,
            r is Ok ==> stack_weight(*old(self).db, final(self).work@) + 1 == stack_weight(
                *old(self).db,
                old(self).work@,
            ) + work_weight(*old(self).db, work),
            r is Ok ==> final(self).symbols.deep_view().to_multiset().add(
                stack_records(*old(self).db, final(self).work@),
            ) == old(self).symbols.deep_view().to_multiset().add(
                stack_records(*old(self).db, old(self).work@),
            ).add(work_records(*old(self).db, work)),
    {
        if self.db.cancelled {
            return Err(Cancelled);
        }
        match work {
            SymbolCollectorWork::Module { module_id, parent } => {
                let parent_name = match parent {
                    Some(body_id) => self.def_with_body_id_name(body_id),
                    None => None,
                };
                proof {
                    match parent {
                        Some(b) => {
                            assert(parent_name.deep_view() == body_name(*self.db, b as int));
                        },
                        None => {},
                    }
                }
                match parent_name {
                    Some(n) => {
                        self.container_name_stack.push(n);
                        assert(stack_top(self.container_name_stack@) == parent_name.deep_view());
                        self.collect_from_module(module_id);
                        let _ = self.container_name_stack.pop();
                        assert(self.container_name_stack@ =~= old(self).container_name_stack@);
                    },
                    None => {
                        assert(stack_top(self.container_name_stack@) == parent_name.deep_view());
                        self.collect_from_module(module_id);
                    },
                }
            },
            SymbolCollectorWork::Trait { trait_id } => {
                let trait_name = match &self.db.traits[trait_id].name {
                    Some(n) => Some(n.clone()),
                    None => None,
                };
                assert(trait_name.deep_view() == trait_ctx(*self.db, trait_id as int));
                match trait_name {
                    Some(n) => {
                        self.container_name_stack.push(n);
                        assert(stack_top(self.container_name_stack@) == trait_ctx(
                            *self.db,
                            trait_id as int,
                        ));
                        self.collect_from_trait(trait_id);
                        let _ = self.container_name_stack.pop();
                        assert(self.container_name_stack@ =~= old(self).container_name_stack@);
                    },
                    None => {
                        assert(stack_top(self.container_name_stack@) == trait_ctx(
                            *self.db,
                            trait_id as int,
                        ));
                        self.collect_from_trait(trait_id);
                    },
                }
                assert(work_records(*old(self).db, work) == collected_trait(
                    *old(self).db,
                    trait_id as int,
                ));
            },
            SymbolCollectorWork::Body { body_id, floor } => {
                self.collect_from_body(body_id, floor);
            },
            SymbolCollectorWork::Impl { impl_id } => {
                assert(stack_top(self.container_name_stack@) == None::<Seq<char>>);
                self.collect_from_impl(impl_id);
                assert(work_records(*old(self).db, work) == collected_impl(
                    *old(self).db,
                    impl_id as int,
                ));
            },
        }
        Ok(())
    }

    /// Walks one module's resolved scope: emits a record per named
    /// declaration and enqueues the scope's bodies, traits and impls.
    fn collect_from_module(&mut self, module_id: usize)
        requires
            old(self).inv(),
            module_id < old(self).db.modules@.len(),
        ensures
            final(self).inv(),
            final(self).db == old(self).db,
            final(self).container_name_stack@ == old(self).container_name_stack@,
            stack_weight(*old(self).db, final(self).work@) + 1 == stack_weight(
                *old(self).db,
                old(self).work@,
            ) + weight_module(*old(self).db, module_id as int),
            final(self).symbols.deep_view().to_multiset().add(
                stack_records(*old(self).db, final(self).work@),
            ) == old(self).symbols.deep_view().to_multiset().add(
                stack_records(*old(self).db, old(self).work@),
            ).add(
                collected_module(
                    *old(self).db,
                    module_id as int,
                    stack_top(old(self).container_name_stack@),
                ),
            ),
    {
        let db = self.db;
        let ghost gdb = *db;
        let ghost m = module_id as int;
        let ghost w0 = stack_weight(gdb, self.work@);
        let ghost ctx = stack_top(self.container_name_stack@);
        let ghost base = self.symbols.deep_view().to_multiset().add(
            stack_records(gdb, self.work@),
        );
        assert(gdb.module_wf(m));

        let n_decls = db.modules[module_id].scope.declarations.len();
        let mut i: usize = 0;
        while i < n_decls
            invariant
                self.inv(),
                self.db == db,
                gdb == *db,
                gdb.module_wf(m),
                m == module_id as int,
                0 <= m < gdb.n_modules(),
                n_decls == gdb.modules@[m].scope.declarations@.len(),
                0 <= i <= n_decls,
                self.container_name_stack@ == old(self).container_name_stack@,
                ctx == stack_top(self.container_name_stack@),
                stack_weight(gdb, self.work@) + sum_decl_weights(gdb, m, i as int) == w0
                    + sum_decl_weights(gdb, m, 0),
                self.symbols.deep_view().to_multiset().add(stack_records(gdb, self.work@)).add(
                    collected_decls(gdb, m, ctx, i as int),
                ) == base.add(collected_decls(gdb, m, ctx, 0)),
            decreases n_decls - i,
        {
            assert(gdb.decl_wf(m, gdb.modules@[m].scope.declarations@[i as int]));
            let ghost pre_work = self.work@;
            match &db.modules[module_id].scope.declarations[i] {
                ScopeDecl::Module { module_id: id } => {
                    self.push_module(*id);
                },
                ScopeDecl::Function { item, body_id } => {
                    self.push_decl_assoc(item, FileSymbolKind::Function);
                    self.work.push(
                        SymbolCollectorWork::Body { body_id: *body_id, floor: Ghost(m) },
                    );
                    proof {
                        lemma_stack_weight_push(
                            gdb,
                            pre_work,
                            SymbolCollectorWork::Body { body_id: *body_id, floor: Ghost(m) },
                        );
                        lemma_stack_records_push(
                            gdb,
                            pre_work,
                            SymbolCollectorWork::Body { body_id: *body_id, floor: Ghost(m) },
                        );
                    }
                },
                ScopeDecl::Struct { src } => {
                    self.push_decl(src, FileSymbolKind::Struct);
                },
                ScopeDecl::Enum { src } => {
                    self.push_decl(src, FileSymbolKind::Enum);
                },
                ScopeDecl::Union { src } => {
                    self.push_decl(src, FileSymbolKind::Union);
                },
                ScopeDecl::Const { item, body_id } => {
                    self.push_decl_assoc(item, FileSymbolKind::Const);
                    self.work.push(
                        SymbolCollectorWork::Body { body_id: *body_id, floor: Ghost(m) },
                    );
                    proof {
                        lemma_stack_weight_push(
                            gdb,
                            pre_work,
                            SymbolCollectorWork::Body { body_id: *body_id, floor: Ghost(m) },
                        );
                        lemma_stack_records_push(
                            gdb,
                            pre_work,
                            SymbolCollectorWork::Body { body_id: *body_id, floor: Ghost(m) },
                        );
                    }
                },
                ScopeDecl::Static { src, body_id } => {
                    self.push_decl(src, FileSymbolKind::Static);
                    self.work.push(
                        SymbolCollectorWork::Body { body_id: *body_id, floor: Ghost(m) },
                    );
                    proof {
                        lemma_stack_weight_push(
                            gdb,
                            pre_work,
                            SymbolCollectorWork::Body { body_id: *body_id, floor: Ghost(m) },
                        );
                        lemma_stack_records_push(
                            gdb,
                            pre_work,
                            SymbolCollectorWork::Body { body_id: *body_id, floor: Ghost(m) },
                        );
                    }
                },
                ScopeDecl::Trait { src, trait_id } => {
                    self.push_decl(src, FileSymbolKind::Trait);
                    self.work.push(SymbolCollectorWork::Trait { trait_id: *trait_id });
                    proof {
                        lemma_stack_weight_push(
                            gdb,
                            pre_work,
                            SymbolCollectorWork::Trait { trait_id: *trait_id },
                        );
                        lemma_stack_records_push(
                            gdb,
                            pre_work,
                            SymbolCollectorWork::Trait { trait_id: *trait_id },
                        );
                    }
                },
                ScopeDecl::TypeAlias { item } => {
                    self.push_decl_assoc(item, FileSymbolKind::TypeAlias);
                },
                ScopeDecl::BuiltinType => {},
                ScopeDecl::EnumVariant => {},
            }
            i = i + 1;
        }

        let ghost w1 = stack_weight(gdb, self.work@);
        let ghost base1 = self.symbols.deep_view().to_multiset().add(
            stack_records(gdb, self.work@),
        );
        proof {
            assert(collected_decls(gdb, m, ctx, n_decls as int) =~= Multiset::<SymbolView>::empty());
            assert(base1 =~= base.add(collected_decls(gdb, m, ctx, 0)));
        }
        let n_impls = db.modules[module_id].scope.impls.len();
        let mut i2: usize = 0;
        while i2 < n_impls
            invariant
                self.inv(),
                self.db == db,
                gdb == *db,
                gdb.module_wf(m),
                m == module_id as int,
                0 <= m < gdb.n_modules(),
                n_impls == gdb.modules@[m].scope.impls@.len(),
                0 <= i2 <= n_impls,
                self.container_name_stack@ == old(self).container_name_stack@,
                stack_weight(gdb, self.work@) == w1 + i2,
                self.symbols.deep_view().to_multiset().add(stack_records(gdb, self.work@)).add(
                    collected_impls_of(gdb, m, i2 as int),
                ) == base1.add(collected_impls_of(gdb, m, 0)),
            decreases n_impls - i2,
        {
            let impl_id = db.modules[module_id].scope.impls[i2];
            let ghost pre_work = self.work@;
            self.work.push(SymbolCollectorWork::Impl { impl_id });
            proof {
                lemma_stack_weight_push(gdb, pre_work, SymbolCollectorWork::Impl { impl_id });
                lemma_stack_records_push(gdb, pre_work, SymbolCollectorWork::Impl { impl_id });
            }
            i2 = i2 + 1;
        }

        let ghost w2 = stack_weight(gdb, self.work@);
        let ghost base2 = self.symbols.deep_view().to_multiset().add(
            stack_records(gdb, self.work@),
        );
        proof {
            assert(collected_impls_of(gdb, m, n_impls as int) =~= Multiset::<SymbolView>::empty());
            assert(base2 =~= base1.add(collected_impls_of(gdb, m, 0)));
        }
        let n_unnamed = db.modules[module_id].scope.unnamed_consts.len();
        let mut i3: usize = 0;
        while i3 < n_unnamed
            invariant
                self.inv(),
                self.db == db,
                gdb == *db,
                gdb.module_wf(m),
                m == module_id as int,
                0 <= m < gdb.n_modules(),
                n_unnamed == gdb.modules@[m].scope.unnamed_consts@.len(),
                0 <= i3 <= n_unnamed,
                self.container_name_stack@ == old(self).container_name_stack@,
                stack_weight(gdb, self.work@) + sum_unnamed_weights(gdb, m, i3 as int) == w2
                    + sum_unnamed_weights(gdb, m, 0),
                self.symbols.deep_view().to_multiset().add(stack_records(gdb, self.work@)).add(
                    collected_unnamed(gdb, m, i3 as int),
                ) == base2.add(collected_unnamed(gdb, m, 0)),
            decreases n_unnamed - i3,
        {
            let body_id = db.modules[module_id].scope.unnamed_consts[i3];
            assert(gdb.body_wf(m, body_id as int));
            let ghost pre_work = self.work@;
            self.work.push(SymbolCollectorWork::Body { body_id, floor: Ghost(m) });
            proof {
                lemma_stack_weight_push(
                    gdb,
                    pre_work,
                    SymbolCollectorWork::Body { body_id, floor: Ghost(m) },
                );
                lemma_stack_records_push(
                    gdb,
                    pre_work,
                    SymbolCollectorWork::Body { body_id, floor: Ghost(m) },
                );
            }
            i3 = i3 + 1;
        }

        let ghost base3 = self.symbols.deep_view().to_multiset();
        let ghost r3 = stack_records(gdb, self.work@);
        proof {
            assert(collected_unnamed(gdb, m, n_unnamed as int) =~= Multiset::<SymbolView>::empty());
            assert(base3.add(r3) =~= base2.add(collected_unnamed(gdb, m, 0)));
        }
        let n_macros = db.modules[module_id].scope.macro_declarations.len();
        let mut i4: usize = 0;
        while i4 < n_macros
            invariant
                self.inv(),
                self.db == db,
                gdb == *db,
                m == module_id as int,
                0 <= m < gdb.n_modules(),
                n_macros == gdb.modules@[m].scope.macro_declarations@.len(),
                0 <= i4 <= n_macros,
                self.container_name_stack@ == old(self).container_name_stack@,
                ctx == stack_top(self.container_name_stack@),
                stack_weight(gdb, self.work@) == w2 + sum_unnamed_weights(gdb, m, 0),
                stack_records(gdb, self.work@) == r3,
                self.symbols.deep_view().to_multiset().add(collected_macros(gdb, m, ctx, i4 as int))
                    == base3.add(collected_macros(gdb, m, ctx, 0)),
            decreases n_macros - i4,
        {
            self.push_decl_macro(&db.modules[module_id].scope.macro_declarations[i4]);
            i4 = i4 + 1;
        }
        proof {
            assert(collected_macros(gdb, m, ctx, n_macros as int)
                =~= Multiset::<SymbolView>::empty());
            assert(self.symbols.deep_view().to_multiset() =~= base3.add(
                collected_macros(gdb, m, ctx, 0),
            ));
            let dd = collected_decls(gdb, m, ctx, 0);
            let uu = collected_unnamed(gdb, m, 0);
            let ii = collected_impls_of(gdb, m, 0);
            let mm = collected_macros(gdb, m, ctx, 0);
            assert(self.symbols.deep_view().to_multiset().add(stack_records(gdb, self.work@))
                =~= base3.add(mm).add(r3));
            assert(base3.add(mm).add(r3) =~= base2.add(uu).add(mm));
            assert(base2.add(uu).add(mm) =~= base1.add(ii).add(uu).add(mm));
            assert(base1.add(ii).add(uu).add(mm) =~= base.add(dd).add(ii).add(uu).add(mm));
            assert(base.add(dd).add(ii).add(uu).add(mm) =~= base.add(
                dd.add(uu).add(ii).add(mm),
            ));
        }
    }

    /// Enqueues, for every block def-map nested in the body, a module item
    /// remembering the body as its parent.
    fn collect_from_body(&mut self, body_id: usize, floor: Ghost<int>)
        requires
            old(self).inv(),
            0 <= floor@ < old(self).db.n_modules(),
            old(self).db.body_wf(floor@, body_id as int),
        ensures
            final(self).inv(),
            final(self).db == old(self).db,
            final(self).container_name_stack@ == old(self).container_name_stack@,
            final(self).symbols@ == old(self).symbols@,
            stack_weight(*old(self).db, final(self).work@) + 1 == stack_weight(
                *old(self).db,
                old(self).work@,
            ) + weight_body(*old(self).db, floor@, body_id as int),
            stack_records(*old(self).db, final(self).work@) == stack_records(
                *old(self).db,
                old(self).work@,
            ).add(collected_body(*old(self).db, floor@, body_id as int)),
    {
        let db = self.db;
        let ghost gdb = *db;
        let ghost b = body_id as int;
        let ghost w0 = stack_weight(gdb, self.work@);
        let ghost r0 = stack_records(gdb, self.work@);
        let n = db.bodies[body_id].nested_modules.len();
        let mut i: usize = 0;
        while i < n
            invariant
                self.inv(),
                self.db == db,
                gdb == *db,
                b == body_id as int,
                0 <= floor@ < gdb.n_modules(),
                gdb.body_wf(floor@, b),
                n == gdb.bodies@[b].nested_modules@.len(),
                0 <= i <= n,
                self.container_name_stack@ == old(self).container_name_stack@,
                self.symbols@ == old(self).symbols@,
                stack_weight(gdb, self.work@) + sum_nested_weights(gdb, floor@, b, i as int) == w0
                    + sum_nested_weights(gdb, floor@, b, 0),
                stack_records(gdb, self.work@).add(collected_nested(gdb, floor@, b, i as int))
                    == r0.add(collected_nested(gdb, floor@, b, 0)),
            decreases n - i,
        {
            let m2 = db.bodies[body_id].nested_modules[i];
            assert(floor@ < m2 < gdb.n_modules());
            let ghost pre_work = self.work@;
            self.work.push(SymbolCollectorWork::Module { module_id: m2, parent: Some(body_id) });
            proof {
                lemma_stack_weight_push(
                    gdb,
                    pre_work,
                    SymbolCollectorWork::Module { module_id: m2, parent: Some(body_id) },
                );
                lemma_stack_records_push(
                    gdb,
                    pre_work,
                    SymbolCollectorWork::Module { module_id: m2, parent: Some(body_id) },
                );
            }
            i = i + 1;
        }
        proof {
            assert(stack_records(gdb, self.work@).add(Multiset::empty()) =~= stack_records(
                gdb,
                self.work@,
            ));
            assert(r0.add(Multiset::empty()) =~= r0);
        }
    }

    /// Emits a record for each associated item of the impl.
    fn collect_from_impl(&mut self, impl_id: usize)
        requires
            old(self).inv(),
            impl_id < old(self).db.impls@.len(),
        ensures
            final(self).inv(),
            final(self).db == old(self).db,
            final(self).container_name_stack@ == old(self).container_name_stack@,
            final(self).work@ == old(self).work@,
            final(self).symbols.deep_view().to_multiset() == old(self).symbols.deep_view()
                .to_multiset().add(
                collected_items(
                    *old(self).db,
                    old(self).db.impls@[impl_id as int].items@,
                    stack_top(old(self).container_name_stack@),
                    0,
                ),
            ),
    {
        let db = self.db;
        let ghost items = db.impls@[impl_id as int].items@;
        let ghost ctx = stack_top(self.container_name_stack@);
        let ghost base = self.symbols.deep_view().to_multiset();
        let n = db.impls[impl_id].items.len();
        let mut i: usize = 0;
        while i < n
            invariant
                self.inv(),
                self.db == db,
                impl_id < db.impls@.len(),
                items == db.impls@[impl_id as int].items@,
                ctx == stack_top(self.container_name_stack@),
                n == items.len(),
                0 <= i <= n,
                self.container_name_stack@ == old(self).container_name_stack@,
                self.work@ == old(self).work@,
                self.symbols.deep_view().to_multiset().add(collected_items(*db, items, ctx, i as int))
                    == base.add(collected_items(*db, items, ctx, 0)),
            decreases n - i,
        {
            assert(db.items_wf(db.impls@[impl_id as int].items@));
            self.push_assoc_item(&db.impls[impl_id].items[i]);
            i = i + 1;
        }
        proof {
            assert(self.symbols.deep_view().to_multiset().add(Multiset::empty())
                =~= self.symbols.deep_view().to_multiset());
            assert(base.add(Multiset::empty()) =~= base);
        }
    }

    /// Emits a record for each item of the trait.
    fn collect_from_trait(&mut self, trait_id: usize)
        requires
            old(self).inv(),
            trait_id < old(self).db.traits@.len(),
        ensures
            final(self).inv(),
            final(self).db == old(self).db,
            final(self).container_name_stack@ == old(self).container_name_stack@,
            final(self).work@ == old(self).work@,
            final(self).symbols.deep_view().to_multiset() == old(self).symbols.deep_view()
                .to_multiset().add(
                collected_items(
                    *old(self).db,
                    old(self).db.traits@[trait_id as int].items@,
                    stack_top(old(self).container_name_stack@),
                    0,
                ),
            ),
    {
        let db = self.db;
        let ghost items = db.traits@[trait_id as int].items@;
        let ghost ctx = stack_top(self.container_name_stack@);
        let ghost base = self.symbols.deep_view().to_multiset();
        let n = db.traits[trait_id].items.len();
        let mut i: usize = 0;
        while i < n
            invariant
                self.inv(),
                self.db == db,
                trait_id < db.traits@.len(),
                items == db.traits@[trait_id as int].items@,
                ctx == stack_top(self.container_name_stack@),
                n == items.len(),
                0 <= i <= n,
                self.container_name_stack@ == old(self).container_name_stack@,
                self.work@ == old(self).work@,
                self.symbols.deep_view().to_multiset().add(collected_items(*db, items, ctx, i as int))
                    == base.add(collected_items(*db, items, ctx, 0)),
            decreases n - i,
        {
            assert(db.items_wf(db.traits@[trait_id as int].items@));
            self.push_assoc_item(&db.traits[trait_id].items[i]);
            i = i + 1;
        }
        proof {
            assert(self.symbols.deep_view().to_multiset().add(Multiset::empty())
                =~= self.symbols.deep_view().to_multiset());
            assert(base.add(Multiset::empty()) =~= base);
        }
    }

    /// The innermost container name currently in effect.
    fn current_container_name(&self) -> (r: Option<String>)
        ensures
            r.deep_view() == stack_top(self.container_name_stack@),
    {
        let n = self.container_name_stack.len();
        if n > 0 {
            Some(self.container_name_stack[n - 1].clone())
        } else {
            None
        }
    }

    /// The declared name of the item owning a body, used as the container
    /// name of modules nested in that body.
    fn def_with_body_id_name(&self, body_id: usize) -> (r: Option<String>)
        requires
            body_id < self.db.bodies@.len(),
        ensures
            r.deep_view() == body_name(*self.db, body_id as int),
    {
        match &self.db.bodies[body_id].name {
            Some(n) => Some(n.clone()),
            None => None,
        }
    }

    /// Emits one record for an associated-capable item: the container name
    /// comes from the item's own container where the database names one
    /// (a module's declaration or a trait), else from the stack.
    fn push_assoc_item(&mut self, item: &AssocItem)
        requires
            old(self).inv(),
            old(self).db.container_wf(
                match *item {
                    AssocItem::Function(it) => it.container,
                    AssocItem::Const(it) => it.container,
                    AssocItem::TypeAlias(it) => it.container,
                },
            ),
            forall|sv: SymbolView| assoc_emits(*item, sv) ==> emitted_by(*old(self).db, sv),
        ensures
            final(self).inv(),
            final(self).db == old(self).db,
            final(self).container_name_stack@ == old(self).container_name_stack@,
            final(self).work@ == old(self).work@,
            final(self).symbols.deep_view().to_multiset() == old(self).symbols.deep_view()
                .to_multiset().add(
                assoc_item_record(*old(self).db, *item, stack_top(old(self).container_name_stack@)),
            ),
    {
        match item {
            AssocItem::Function(it) => {
                proof {
                    assert forall|sv: SymbolView|
                        renders(it.src, FileSymbolKind::Function, sv) implies emitted_by(
                        *self.db,
                        sv,
                    ) by {
                        assert(assoc_emits(*item, sv));
                    }
                }
                self.push_decl_assoc(it, FileSymbolKind::Function);
            },
            AssocItem::Const(it) => {
                proof {
                    assert forall|sv: SymbolView|
                        renders(it.src, FileSymbolKind::Const, sv) implies emitted_by(
                        *self.db,
                        sv,
                    ) by {
                        assert(assoc_emits(*item, sv));
                    }
                }
                self.push_decl_assoc(it, FileSymbolKind::Const);
            },
            AssocItem::TypeAlias(it) => {
                proof {
                    assert forall|sv: SymbolView|
                        renders(it.src, FileSymbolKind::TypeAlias, sv) implies emitted_by(
                        *self.db,
                        sv,
                    ) by {
                        assert(assoc_emits(*item, sv));
                    }
                }
                self.push_decl_assoc(it, FileSymbolKind::TypeAlias);
            },
        }
    }

    /// Emits one record for an item with a container, if it has a name.
    fn push_decl_assoc(&mut self, item: &ItemSource, kind: FileSymbolKind)
        requires
            old(self).inv(),
            old(self).db.container_wf(item.container),
            forall|sv: SymbolView| renders(item.src, kind, sv) ==> emitted_by(*old(self).db, sv),
        ensures
            final(self).inv(),
            final(self).db == old(self).db,
            final(self).container_name_stack@ == old(self).container_name_stack@,
            final(self).work@ == old(self).work@,
            final(self).symbols.deep_view().to_multiset() == old(self).symbols.deep_view()
                .to_multiset().add(
                rendered_record(
                    item.src,
                    kind,
                    assoc_container(
                        *old(self).db,
                        item.container,
                        stack_top(old(self).container_name_stack@),
                    ),
                ),
            ),
    {
        let container_name = match &item.container {
            Container::Module(mid) => {
                match &self.db.modules[*mid].declaration {
                    Some(src) => match &src.name {
                        Some(n) => Some(n.text.clone()),
                        None => None,
                    },
                    None => None,
                }
            },
            Container::Trait(tid) => {
                match &self.db.traits[*tid].src.name {
                    Some(n) => Some(n.text.clone()),
                    None => None,
                }
            },
            Container::Impl(_) => None,
        };
        let container_name = match container_name {
            Some(c) => Some(c),
            None => self.current_container_name(),
        };
        assert(container_name.deep_view() == assoc_container(
            *self.db,
            item.container,
            stack_top(self.container_name_stack@),
        ));
        self.push_source(&item.src, kind, container_name);
    }

    /// Emits one record for an item without a container field.
    fn push_decl(&mut self, src: &SourceInfo, kind: FileSymbolKind)
        requires
            old(self).inv(),
            forall|sv: SymbolView| renders(*src, kind, sv) ==> emitted_by(*old(self).db, sv),
        ensures
            final(self).inv(),
            final(self).db == old(self).db,
            final(self).container_name_stack@ == old(self).container_name_stack@,
            final(self).work@ == old(self).work@,
            final(self).symbols.deep_view().to_multiset() == old(self).symbols.deep_view()
                .to_multiset().add(
                rendered_record(*src, kind, stack_top(old(self).container_name_stack@)),
            ),
    {
        let container_name = self.current_container_name();
        self.push_source(src, kind, container_name);
    }

    /// Emits one record for a nested module declaration, if the database
    /// has a declaration node with a name for it.
    fn push_module(&mut self, module_id: usize)
        requires
            old(self).inv(),
            module_id < old(self).db.modules@.len(),
            forall|sv: SymbolView|
                decl_emits(*old(self).db, ScopeDecl::Module { module_id }, sv) ==> emitted_by(
                    *old(self).db,
                    sv,
                ),
        ensures
            final(self).inv(),
            final(self).db == old(self).db,
            final(self).container_name_stack@ == old(self).container_name_stack@,
            final(self).work@ == old(self).work@,
            final(self).symbols.deep_view().to_multiset() == old(self).symbols.deep_view()
                .to_multiset().add(
                decl_record(
                    *old(self).db,
                    ScopeDecl::Module { module_id },
                    stack_top(old(self).container_name_stack@),
                ),
            ),
    {
        let container_name = self.current_container_name();
        let db = self.db;
        match &db.modules[module_id].declaration {
            Some(src) => {
                self.push_source_with(src, FileSymbolKind::Module, container_name);
            },
            None => {
                proof {
                    assert(decl_record(
                        *self.db,
                        ScopeDecl::Module { module_id },
                        stack_top(self.container_name_stack@),
                    ) =~= Multiset::<SymbolView>::empty());
                    assert(self.symbols.deep_view().to_multiset() =~= self.symbols.deep_view()
                        .to_multiset().add(Multiset::empty()));
                }
            },
        }
    }

    /// Emits one record for a macro declaration: the name comes from the
    /// database; the locations come from its definition's source. Either
    /// missing drops the record.
    fn push_decl_macro(&mut self, md: &MacroData)
        requires
            old(self).inv(),
            forall|sv: SymbolView| macro_renders(*md, sv) ==> emitted_by(*old(self).db, sv),
        ensures
            final(self).inv(),
            final(self).db == old(self).db,
            final(self).container_name_stack@ == old(self).container_name_stack@,
            final(self).work@ == old(self).work@,
            final(self).symbols.deep_view().to_multiset() == old(self).symbols.deep_view()
                .to_multiset().add(
                macro_record(*md, stack_top(old(self).container_name_stack@)),
            ),
    {
        let ghost ctx = stack_top(self.container_name_stack@);
        let container_name = self.current_container_name();
        let mut emitted = false;
        match &md.name {
            Some(name) => {
                match &md.src {
                    Some(src) => {
                        match &src.name {
                            Some(n) => {
                                let sym = FileSymbol {
                                    name: name.clone(),
                                    kind: FileSymbolKind::Macro,
                                    container_name,
                                    loc: DeclarationLocation {
                                        hir_file_id: src.hir_file_id,
                                        ptr: src.ptr,
                                        name_ptr: n.ptr,
                                    },
                                };
                                let ghost before = self.symbols.deep_view();
                                assert(macro_renders(*md, sym@));
                                proof {
                                    assert(macro_record(*md, ctx) =~= Multiset::singleton(sym@));
                                }
                                self.symbols.push(sym);
                                proof {
                                    assert(self.symbols.deep_view() =~= before.push(sym@));
                                    before.to_multiset_ensures();
                                    assert(before.push(sym@).to_multiset() =~= before.to_multiset()
                                        .add(Multiset::singleton(sym@)));
                                }
                                emitted = true;
                            },
                            None => {},
                        }
                    },
                    None => {},
                }
            },
            None => {},
        }
        if !emitted {
            proof {
                assert(macro_record(*md, ctx) =~= Multiset::<SymbolView>::empty());
                assert(self.symbols.deep_view().to_multiset() =~= self.symbols.deep_view()
                    .to_multiset().add(Multiset::empty()));
            }
        }
    }

    /// Emits one record from a source lookup, if the declaration has a
    /// name; the given container name is used as is.
    fn push_source(&mut self, src: &SourceInfo, kind: FileSymbolKind, container_name: Option<String>)
        requires
            old(self).inv(),
            forall|sv: SymbolView| renders(*src, kind, sv) ==> emitted_by(*old(self).db, sv),
        ensures
            final(self).inv(),
            final(self).db == old(self).db,
            final(self).container_name_stack@ == old(self).container_name_stack@,
            final(self).work@ == old(self).work@,
            final(self).symbols.deep_view().to_multiset() == old(self).symbols.deep_view()
                .to_multiset().add(rendered_record(*src, kind, container_name.deep_view())),
    {
        self.push_source_with(src, kind, container_name);
    }

    /// Shared emission: a record carries the declaration's file, its node,
    /// its name node and the name text.
    fn push_source_with(
        &mut self,
        src: &SourceInfo,
        kind: FileSymbolKind,
        container_name: Option<String>,
    )
        requires
            old(self).inv(),
            forall|sv: SymbolView| renders(*src, kind, sv) ==> emitted_by(*old(self).db, sv),
        ensures
            final(self).inv(),
            final(self).db == old(self).db,
            final(self).container_name_stack@ == old(self).container_name_stack@,
            final(self).work@ == old(self).work@,
            final(self).symbols.deep_view().to_multiset() == old(self).symbols.deep_view()
                .to_multiset().add(rendered_record(*src, kind, container_name.deep_view())),
    {
        match &src.name {
            Some(n) => {
                let sym = FileSymbol {
                    name: n.text.clone(),
                    kind,
                    container_name,
                    loc: DeclarationLocation {
                        hir_file_id: src.hir_file_id,
                        ptr: src.ptr,
                        name_ptr: n.ptr,
                    },
                };
                let ghost before = self.symbols.deep_view();
                assert(renders(*src, kind, sym@));
                proof {
                    assert(rendered_record(*src, kind, sym.container_name.deep_view())
                        =~= Multiset::singleton(sym@));
                }
                self.symbols.push(sym);
                proof {
                    assert(self.symbols.deep_view() =~= before.push(sym@));
                    before.to_multiset_ensures();
                    assert(before.push(sym@).to_multiset() =~= before.to_multiset().add(
                        Multiset::singleton(sym@),
                    ));
                }
            },
            None => {
                proof {
                    assert(rendered_record(*src, kind, container_name.deep_view())
                        =~= Multiset::<SymbolView>::empty());
                    assert(self.symbols.deep_view().to_multiset() =~= self.symbols.deep_view()
                        .to_multiset().add(Multiset::empty()));
                }
            },
        }
    }
}

/// Collects the symbols of one module granule, aborting with `Cancelled`
/// when the database's flag is set.
pub fn collect_module_symbols(db: &SymbolsDatabase, module_id: usize) -> (r: Result<
    Vec<FileSymbol>,
    Cancelled,
>)
    requires
        db.wf(),
        module_id < db.modules@.len(),
    ensures
        r is Err <==> db.cancelled,
        r matches Ok(v) ==> forall|x: int|
            0 <= x < v.deep_view().len() ==> emitted_by(*db, #[trigger] v.deep_view()[x]),
        r matches Ok(v) ==> v.deep_view().to_multiset() == collected(*db, module_id as int),
{
    SymbolCollector::collect(db, module_id)
}

} // verus!
