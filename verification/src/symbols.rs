//! The indexed record: a named declaration together with its kind and the
//! location of its syntax node inside a (possibly macro-expanded) file.
use vstd::prelude::*;
use vstd::slice::slice_index_get;
use vstd::string::StringSliceAdditionalSpecFns;
use vstd::utf8::encode_utf8;
use crate::text::lower_bytes;

verus! {

/// The kind of a declaration that the index stores.
#[derive(Clone, Copy, PartialEq, Eq, PartialOrd, Ord, Hash, Debug, Structural)]
pub enum FileSymbolKind {
    Const,
    Enum,
    Function,
    Macro,
    Module,
    Static,
    Struct,
    Trait,
    TypeAlias,
    Union,
}

/// The kinds that introduce a type name.
pub open spec fn is_type_kind(k: FileSymbolKind) -> bool {
    match k {
        FileSymbolKind::Struct => true,
        FileSymbolKind::Enum => true,
        FileSymbolKind::Trait => true,
        FileSymbolKind::TypeAlias => true,
        FileSymbolKind::Union => true,
        _ => false,
    }
}

impl FileSymbolKind {
    /// Whether this kind introduces a type name.
    pub fn is_type(self) -> (r: bool)
        ensures
            r == is_type_kind(self),
    {
        match self {
            FileSymbolKind::Struct => true,
            FileSymbolKind::Enum => true,
            FileSymbolKind::Trait => true,
            FileSymbolKind::TypeAlias => true,
            FileSymbolKind::Union => true,
            _ => false,
        }
    }
}

/// A pointer to a node of a file's syntax tree, as the byte range the node
/// covers. Resolving it against a freshly parsed tree is the host's concern;
/// the index only stores and returns it.
#[derive(Clone, Copy, PartialEq, Eq, Hash, Debug, Structural)]
pub struct SyntaxNodePtr {
    pub start: u32,
    pub end: u32,
}

/// Where a declaration lives: the file (which may denote a macro expansion
/// rather than a file on disk), the node of the whole declaration, and the
/// node of its name identifier.
#[derive(Clone, Copy, PartialEq, Eq, Hash, Debug, Structural)]
pub struct DeclarationLocation {
    /// The file id for both `ptr` and `name_ptr`.
    pub hir_file_id: u32,
    /// Points to the whole syntax node of the declaration.
    pub ptr: SyntaxNodePtr,
    /// Points to the name identifier of the declaration.
    pub name_ptr: SyntaxNodePtr,
}

/// The actual data that is stored in the index. It should be as compact as
/// possible.
#[derive(PartialEq, Eq, Hash, Debug)]
pub struct FileSymbol {
    pub name: String,
    pub loc: DeclarationLocation,
    pub kind: FileSymbolKind,
    pub container_name: Option<String>,
}

/// The mathematical value of a stored record: the same fields with the
/// strings read as character sequences.
pub struct SymbolView {
    pub name: Seq<char>,
    pub loc: DeclarationLocation,
    pub kind: FileSymbolKind,
    pub container_name: Option<Seq<char>>,
}

impl View for FileSymbol {
    type V = SymbolView;

    open spec fn view(&self) -> SymbolView {
        SymbolView {
            name: self.name@,
            loc: self.loc,
            kind: self.kind,
            container_name: match self.container_name {
                Some(s) => Some(s@),
                None => None,
            },
        }
    }
}

impl DeepView for FileSymbol {
    type V = SymbolView;

    open spec fn deep_view(&self) -> SymbolView {
        self.view()
    }
}

impl Clone for FileSymbol {
    fn clone(&self) -> (r: Self)
        ensures
            r@ == self@,
    {
        FileSymbol {
            name: self.name.clone(),
            loc: self.loc,
            kind: self.kind,
            container_name: match &self.container_name {
                Some(s) => Some(s.clone()),
                None => None,
            },
        }
    }
}

/// The bytes a syntax-node pointer covers within a root text, when its
/// range lies inside the text; resolving them back to text (and parsing the
/// root in the first place) is the host's work.
pub fn node_bytes(root: &str, ptr: &SyntaxNodePtr) -> (r: Option<Vec<u8>>)
    ensures
        match r {
            Some(v) => ptr.start <= ptr.end && ptr.end as int <= root.spec_bytes().len() && v@
                == root.spec_bytes().subrange(ptr.start as int, ptr.end as int),
            None => ptr.start > ptr.end || ptr.end as int > root.spec_bytes().len(),
        },
{
    let bytes = root.as_bytes();
    if ptr.start > ptr.end || (ptr.end as usize) > bytes.len() {
        return None;
    }
    let mut v: Vec<u8> = Vec::new();
    let mut i: usize = ptr.start as usize;
    while i < ptr.end as usize
        invariant
            ptr.start <= ptr.end,
            ptr.end as int <= bytes@.len(),
            bytes@ == root.spec_bytes(),
            ptr.start as int <= i as int <= ptr.end as int,
            v@ =~= root.spec_bytes().subrange(ptr.start as int, i as int),
        decreases ptr.end as int - i,
    {
        v.push(*slice_index_get(bytes, i));
        assert(v@ =~= root.spec_bytes().subrange(ptr.start as int, i as int + 1));
        i = i + 1;
    }
    assert(v@ =~= root.spec_bytes().subrange(ptr.start as int, ptr.end as int));
    Some(v)
}

/// The search key of a record: the ASCII-lowercased UTF-8 bytes of its name.
pub open spec fn symbol_key(s: SymbolView) -> Seq<u8> {
    lower_bytes(encode_utf8(s.name))
}

/// Computes the search key of a record.
pub fn symbol_lower_key(s: &FileSymbol) -> (r: Vec<u8>)
    ensures
        r@ == symbol_key(s@),
{
    crate::text::lowercase_bytes(s.name.as_str())
}

} // verus!
