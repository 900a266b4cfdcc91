//! A plain-value model of the semantic database that the collector walks:
//! the resolved module tree of each crate, the bodies, impls and traits
//! reachable from module scopes, the source-root inputs, and the host's
//! cancellation flag.
//!
//! Ids are indexes into the entity tables. Well-formedness asks that every
//! referenced id is in range and that the modules of a block def-map nested
//! inside a body carry larger ids than the module whose scope declared the
//! body — a preorder numbering of the module tree, which any resolved
//! (cycle-free) module tree admits. The collector's termination rests on it.
use vstd::prelude::*;
use crate::symbols::SyntaxNodePtr;

verus! {

/// The name identifier of a declaration: its text and its syntax node.
pub struct NameInfo {
    pub text: String,
    pub ptr: SyntaxNodePtr,
}

/// What the database's source lookup yields for a declaration: the file it
/// lives in, the node of the whole declaration, and the name node if the
/// declaration has an identifier. One without a name produces no record.
pub struct SourceInfo {
    pub hir_file_id: u32,
    pub ptr: SyntaxNodePtr,
    pub name: Option<NameInfo>,
}

/// The container of an associated item, as its lookup reports it. Impls are
/// anonymous: an item contained in one falls back to the collector's
/// container-name stack.
pub enum Container {
    Module(usize),
    Trait(usize),
    Impl(usize),
}

/// An item whose lookup carries a container: functions, consts and type
/// aliases, which may sit in a module, a trait or an impl.
pub struct ItemSource {
    pub container: Container,
    pub src: SourceInfo,
}

/// One declaration of a module's resolved scope.
pub enum ScopeDecl {
    Module { module_id: usize },
    Function { item: ItemSource, body_id: usize },
    Struct { src: SourceInfo },
    Enum { src: SourceInfo },
    Union { src: SourceInfo },
    Const { item: ItemSource, body_id: usize },
    Static { src: SourceInfo, body_id: usize },
    Trait { src: SourceInfo, trait_id: usize },
    TypeAlias { item: ItemSource },
    BuiltinType,
    EnumVariant,
}

/// A macro declared in a module's scope: its name as the database knows it,
/// and its definition's source where one can be found.
pub struct MacroData {
    pub name: Option<String>,
    pub src: Option<SourceInfo>,
}

/// A module's resolved scope: its declarations, its impl blocks, the bodies
/// of its unnamed constants, and its macro declarations.
pub struct ScopeData {
    pub declarations: Vec<ScopeDecl>,
    pub impls: Vec<usize>,
    pub unnamed_consts: Vec<usize>,
    pub macro_declarations: Vec<MacroData>,
}

/// A module of a def-map: the syntax of its own declaration (absent for a
/// crate root or a macro-made module) and its resolved scope.
pub struct ModuleData {
    pub declaration: Option<SourceInfo>,
    pub scope: ScopeData,
}

/// A body (of a function, const or static): the declared name of its owner,
/// and the modules of the block def-maps nested inside it.
pub struct BodyData {
    pub name: Option<String>,
    pub nested_modules: Vec<usize>,
}

/// An associated item of an impl or a trait.
pub enum AssocItem {
    Function(ItemSource),
    Const(ItemSource),
    TypeAlias(ItemSource),
}

/// An impl block: its associated items. The impl itself is anonymous and
/// produces no record.
pub struct ImplData {
    pub items: Vec<AssocItem>,
}

/// A trait: its name in the database, its own source, and its items.
pub struct TraitData {
    pub name: Option<String>,
    pub src: SourceInfo,
    pub items: Vec<AssocItem>,
}

/// A crate: the module ids of its def-map.
pub struct CrateData {
    pub module_ids: Vec<usize>,
}

/// A file of a source root: its id and its text.
pub struct FileEntry {
    pub file_id: u32,
    pub text: String,
}

/// One source root: its id, the crates rooted in it, and its files.
pub struct SourceRootData {
    pub root_id: u32,
    pub crates: Vec<usize>,
    pub files: Vec<FileEntry>,
}

/// The semantic database as the index layer consumes it: the entity tables,
/// the two source-root inputs set by the host, and the cancellation flag
/// the host raises to abort long walks.
pub struct SymbolsDatabase {
    pub modules: Vec<ModuleData>,
    pub bodies: Vec<BodyData>,
    pub impls: Vec<ImplData>,
    pub traits: Vec<TraitData>,
    pub crates: Vec<CrateData>,
    pub source_roots: Vec<SourceRootData>,
    pub local_roots: Vec<u32>,
    pub library_roots: Vec<u32>,
    pub cancelled: bool,
}

impl SymbolsDatabase {
    /// The number of modules in the database.
    pub open spec fn n_modules(self) -> int {
        self.modules@.len() as int
    }

    /// A container reference points at an existing entity.
    pub open spec fn container_wf(self, c: Container) -> bool {
        match c {
            Container::Module(id) => id < self.modules@.len(),
            Container::Trait(id) => id < self.traits@.len(),
            Container::Impl(_) => true,
        }
    }

    /// A body referenced from module `m` exists, and its nested modules all
    /// carry ids strictly between `m` and the table's end.
    pub open spec fn body_wf(self, m: int, b: int) -> bool {
        &&& 0 <= b < self.bodies@.len()
        &&& forall|x: int|
            0 <= x < self.bodies@[b].nested_modules@.len() ==> m < #[trigger] self.bodies@[b].nested_modules@[x] < self.modules@.len()
    }

    /// A declaration of module `m`'s scope references only existing
    /// entities, with bodies obeying the nesting numbering.
    pub open spec fn decl_wf(self, m: int, d: ScopeDecl) -> bool {
        match d {
            ScopeDecl::Module { module_id } => module_id < self.modules@.len(),
            ScopeDecl::Function { item, body_id } => self.container_wf(item.container)
                && self.body_wf(m, body_id as int),
            ScopeDecl::Struct { .. } => true,
            ScopeDecl::Enum { .. } => true,
            ScopeDecl::Union { .. } => true,
            ScopeDecl::Const { item, body_id } => self.container_wf(item.container) && self.body_wf(
                m,
                body_id as int,
            ),
            ScopeDecl::Static { src, body_id } => self.body_wf(m, body_id as int),
            ScopeDecl::Trait { src, trait_id } => trait_id < self.traits@.len(),
            ScopeDecl::TypeAlias { item } => self.container_wf(item.container),
            ScopeDecl::BuiltinType => true,
            ScopeDecl::EnumVariant => true,
        }
    }

    /// Module `m`'s scope is well-formed.
    pub open spec fn module_wf(self, m: int) -> bool {
        let sc = self.modules@[m].scope;
        &&& forall|x: int|
            0 <= x < sc.declarations@.len() ==> self.decl_wf(m, #[trigger] sc.declarations@[x])
        &&& forall|x: int| 0 <= x < sc.impls@.len() ==> #[trigger] sc.impls@[x] < self.impls@.len()
        &&& forall|x: int|
            0 <= x < sc.unnamed_consts@.len() ==> self.body_wf(m, #[trigger] sc.unnamed_consts@[x] as int)
    }

    /// The items of an impl or trait reference only existing containers.
    pub open spec fn items_wf(self, items: Seq<AssocItem>) -> bool {
        forall|x: int|
            0 <= x < items.len() ==> self.container_wf(
                match #[trigger] items[x] {
                    AssocItem::Function(item) => item.container,
                    AssocItem::Const(item) => item.container,
                    AssocItem::TypeAlias(item) => item.container,
                },
            )
    }

    /// The whole database is well-formed: every id in range, nesting
    /// numbered as the preorder of the module tree demands.
    pub open spec fn wf(self) -> bool {
        &&& forall|m: int| 0 <= m < self.n_modules() ==> self.module_wf(m)
        &&& forall|x: int| 0 <= x < self.impls@.len() ==> self.items_wf(#[trigger] self.impls@[x].items@)
        &&& forall|x: int| 0 <= x < self.traits@.len() ==> self.items_wf(
            #[trigger] self.traits@[x].items@,
        )
        &&& forall|c: int, x: int|
            0 <= c < self.crates@.len() && 0 <= x < self.crates@[c].module_ids@.len()
                ==> #[trigger] self.crates@[c].module_ids@[x] < self.modules@.len()
        &&& forall|r: int, x: int|
            0 <= r < self.source_roots@.len() && 0 <= x < self.source_roots@[r].crates@.len()
                ==> #[trigger] self.source_roots@[r].crates@[x] < self.crates@.len()
    }
}

impl SymbolsDatabase {
    /// Checks one container reference at run time.
    fn check_container(&self, c: &Container) -> (r: bool)
        ensures
            r == self.container_wf(*c),
    {
        match c {
            Container::Module(id) => *id < self.modules.len(),
            Container::Trait(id) => *id < self.traits.len(),
            Container::Impl(_) => true,
        }
    }

    /// Checks one body reference from module `m` at run time.
    fn check_body(&self, m: usize, b: usize) -> (r: bool)
        ensures
            r == self.body_wf(m as int, b as int),
    {
        if b >= self.bodies.len() {
            return false;
        }
        let n = self.bodies[b].nested_modules.len();
        let mut x: usize = 0;
        while x < n
            invariant
                b < self.bodies@.len(),
                n == self.bodies@[b as int].nested_modules@.len(),
                0 <= x <= n,
                forall|y: int|
                    0 <= y < x ==> m < #[trigger] self.bodies@[b as int].nested_modules@[y]
                        < self.modules@.len(),
            decreases n - x,
        {
            let m2 = self.bodies[b].nested_modules[x];
            if !(m < m2 && m2 < self.modules.len()) {
                return false;
            }
            x = x + 1;
        }
        true
    }

    /// Checks one scope declaration of module `m` at run time.
    fn check_decl(&self, m: usize, d: &ScopeDecl) -> (r: bool)
        ensures
            r == self.decl_wf(m as int, *d),
    {
        match d {
            ScopeDecl::Module { module_id } => *module_id < self.modules.len(),
            ScopeDecl::Function { item, body_id } => self.check_container(&item.container)
                && self.check_body(m, *body_id),
            ScopeDecl::Struct { src } => true,
            ScopeDecl::Enum { src } => true,
            ScopeDecl::Union { src } => true,
            ScopeDecl::Const { item, body_id } => self.check_container(&item.container)
                && self.check_body(m, *body_id),
            ScopeDecl::Static { src, body_id } => self.check_body(m, *body_id),
            ScopeDecl::Trait { src, trait_id } => *trait_id < self.traits.len(),
            ScopeDecl::TypeAlias { item } => self.check_container(&item.container),
            ScopeDecl::BuiltinType => true,
            ScopeDecl::EnumVariant => true,
        }
    }

    /// Checks the items of one impl or trait at run time.
    fn check_items(&self, items: &Vec<AssocItem>) -> (r: bool)
        ensures
            r == self.items_wf(items@),
    {
        let mut x: usize = 0;
        while x < items.len()
            invariant
                0 <= x <= items@.len(),
                forall|y: int|
                    0 <= y < x ==> self.container_wf(
                        match #[trigger] items@[y] {
                            AssocItem::Function(item) => item.container,
                            AssocItem::Const(item) => item.container,
                            AssocItem::TypeAlias(item) => item.container,
                        },
                    ),
            decreases items@.len() - x,
        {
            let ok = match &items[x] {
                AssocItem::Function(item) => self.check_container(&item.container),
                AssocItem::Const(item) => self.check_container(&item.container),
                AssocItem::TypeAlias(item) => self.check_container(&item.container),
            };
            if !ok {
                return false;
            }
            x = x + 1;
        }
        true
    }

    /// Checks one module's scope at run time.
    fn check_module(&self, m: usize) -> (r: bool)
        requires
            m < self.modules@.len(),
        ensures
            r == self.module_wf(m as int),
    {
        let n_decls = self.modules[m].scope.declarations.len();
        let mut x: usize = 0;
        while x < n_decls
            invariant
                m < self.modules@.len(),
                n_decls == self.modules@[m as int].scope.declarations@.len(),
                0 <= x <= n_decls,
                forall|y: int|
                    0 <= y < x ==> self.decl_wf(
                        m as int,
                        #[trigger] self.modules@[m as int].scope.declarations@[y],
                    ),
            decreases n_decls - x,
        {
            if !self.check_decl(m, &self.modules[m].scope.declarations[x]) {
                return false;
            }
            x = x + 1;
        }
        let n_impls = self.modules[m].scope.impls.len();
        let mut x2: usize = 0;
        while x2 < n_impls
            invariant
                m < self.modules@.len(),
                n_impls == self.modules@[m as int].scope.impls@.len(),
                0 <= x2 <= n_impls,
                forall|y: int|
                    0 <= y < x2 ==> #[trigger] self.modules@[m as int].scope.impls@[y]
                        < self.impls@.len(),
            decreases n_impls - x2,
        {
            if !(self.modules[m].scope.impls[x2] < self.impls.len()) {
                return false;
            }
            x2 = x2 + 1;
        }
        let n_unnamed = self.modules[m].scope.unnamed_consts.len();
        let mut x3: usize = 0;
        while x3 < n_unnamed
            invariant
                m < self.modules@.len(),
                n_unnamed == self.modules@[m as int].scope.unnamed_consts@.len(),
                0 <= x3 <= n_unnamed,
                forall|y: int|
                    0 <= y < x3 ==> self.body_wf(
                        m as int,
                        #[trigger] self.modules@[m as int].scope.unnamed_consts@[y] as int,
                    ),
            decreases n_unnamed - x3,
        {
            if !self.check_body(m, self.modules[m].scope.unnamed_consts[x3]) {
                return false;
            }
            x3 = x3 + 1;
        }
        true
    }

    /// Decides well-formedness at run time: every condition of `wf` is a
    /// bounded check over the tables, so a host that built a database can
    /// test it before relying on functions that require it.
    pub fn check_wf(&self) -> (r: bool)
        ensures
            r == self.wf(),
    {
        let mut m: usize = 0;
        while m < self.modules.len()
            invariant
                0 <= m <= self.modules@.len(),
                forall|y: int| 0 <= y < m ==> self.module_wf(y),
            decreases self.modules@.len() - m,
        {
            if !self.check_module(m) {
                return false;
            }
            m = m + 1;
        }
        let mut t: usize = 0;
        while t < self.impls.len()
            invariant
                0 <= t <= self.impls@.len(),
                forall|y: int| 0 <= y < t ==> self.items_wf(#[trigger] self.impls@[y].items@),
            decreases self.impls@.len() - t,
        {
            if !self.check_items(&self.impls[t].items) {
                return false;
            }
            t = t + 1;
        }
        let mut t2: usize = 0;
        while t2 < self.traits.len()
            invariant
                0 <= t2 <= self.traits@.len(),
                forall|y: int| 0 <= y < t2 ==> self.items_wf(#[trigger] self.traits@[y].items@),
            decreases self.traits@.len() - t2,
        {
            if !self.check_items(&self.traits[t2].items) {
                return false;
            }
            t2 = t2 + 1;
        }
        let mut c: usize = 0;
        while c < self.crates.len()
            invariant
                0 <= c <= self.crates@.len(),
                forall|c2: int, y: int|
                    0 <= c2 < c && 0 <= y < self.crates@[c2].module_ids@.len()
                        ==> #[trigger] self.crates@[c2].module_ids@[y] < self.modules@.len(),
            decreases self.crates@.len() - c,
        {
            let n = self.crates[c].module_ids.len();
            let mut y: usize = 0;
            while y < n
                invariant
                    c < self.crates@.len(),
                    n == self.crates@[c as int].module_ids@.len(),
                    0 <= y <= n,
                    forall|y2: int|
                        0 <= y2 < y ==> #[trigger] self.crates@[c as int].module_ids@[y2]
                            < self.modules@.len(),
                decreases n - y,
            {
                if !(self.crates[c].module_ids[y] < self.modules.len()) {
                    return false;
                }
                y = y + 1;
            }
            c = c + 1;
        }
        let mut ro: usize = 0;
        while ro < self.source_roots.len()
            invariant
                0 <= ro <= self.source_roots@.len(),
                forall|r2: int, y: int|
                    0 <= r2 < ro && 0 <= y < self.source_roots@[r2].crates@.len()
                        ==> #[trigger] self.source_roots@[r2].crates@[y] < self.crates@.len(),
            decreases self.source_roots@.len() - ro,
        {
            let n = self.source_roots[ro].crates.len();
            let mut y: usize = 0;
            while y < n
                invariant
                    ro < self.source_roots@.len(),
                    n == self.source_roots@[ro as int].crates@.len(),
                    0 <= y <= n,
                    forall|y2: int|
                        0 <= y2 < y ==> #[trigger] self.source_roots@[ro as int].crates@[y2]
                            < self.crates@.len(),
                decreases n - y,
            {
                if !(self.source_roots[ro].crates[y] < self.crates.len()) {
                    return false;
                }
                y = y + 1;
            }
            ro = ro + 1;
        }
        true
    }
}

} // verus!
