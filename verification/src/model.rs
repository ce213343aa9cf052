//! Data model of a resolved function signature: definition references,
//! type-node trees, generic bounds, and the signature itself.

use vstd::prelude::*;

verus! {

/// A resolved definition reference, as the semantic front end reports it:
/// whether the definition is local to the analyzed unit, the name of its
/// owning library, and its fully qualified path within that library
/// (rendered with a leading `::`, e.g. `::vec::Vec`).
pub struct ResolvedDefinition {
    pub local: bool,
    pub library: String,
    pub path: String,
}

/// One node of a type as it appears in a signature, after semantic
/// resolution.
///
/// `Tuple` carries all its elements, whatever their number; whether the
/// tuple structural label is emitted depends on that number. `NamedPath`
/// carries the resolved definition together with the generic arguments
/// applied at the reference site, which are part of the type and are
/// visited like any nested type. `PrimitiveStr` is the built-in string
/// slice, which resolves to a primitive rather than to a library path.
/// `Other` stands for every remaining form; it yields no label of its own,
/// but its nested types are still visited.
pub enum TypeNode {
    Slice(Box<TypeNode>),
    Reference(Box<TypeNode>),
    Never,
    Tuple(Vec<TypeNode>),
    NamedPath(ResolvedDefinition, Vec<TypeNode>),
    PrimitiveStr,
    Other(Vec<TypeNode>),
}

/// A generic bound attached to a function's generics: the trait reference's
/// resolved definition, if the front end could resolve it, and the generic
/// arguments applied to the trait at the bound site.
pub struct GenericBound {
    pub trait_def: Option<ResolvedDefinition>,
    pub args: Vec<TypeNode>,
}

/// One top-level function item of a resolved unit: its name, its fully
/// qualified definition path (used to exclude scaffolding namespaces), its
/// parameter types in order, its return type, and its generic bounds.
pub struct FunctionSignature {
    pub name: String,
    pub def_path: String,
    pub params: Vec<TypeNode>,
    pub ret: TypeNode,
    pub bounds: Vec<GenericBound>,
}

} // verus!
