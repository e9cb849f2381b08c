//! A verified program: its modules and the resolution table that says
//! where every module, type, trait and implementation stands.

use vstd::prelude::*;

use crate::ast::ModuleDef;

verus! {

/// The kind of definition a location points at.
#[derive(Debug, Clone, Copy, PartialEq, Eq, Structural)]
pub enum TypeKind {
    Enum,
    Struct,
    Newtype,
    Const,
}

/// Where a type is defined: the module's position, the kind of
/// definition, and its position in that module's list of that kind.
#[derive(Debug, Clone, Copy, PartialEq, Eq, Structural)]
pub struct TypeLocation {
    pub module: u32,
    pub kind: TypeKind,
    pub index: u32,
}

/// Where a trait is declared.
#[derive(Debug, Clone, Copy, PartialEq, Eq, Structural)]
pub struct TraitLocation {
    pub module: u32,
    pub decl_index: u32,
}

#[derive(Debug)]
pub struct ModuleEntry {
    pub name: String,
    pub index: u32,
}

#[derive(Debug)]
pub struct TypeEntry {
    pub name: String,
    pub location: TypeLocation,
}

#[derive(Debug)]
pub struct TraitEntry {
    pub name: String,
    pub location: TraitLocation,
}

/// A trait implementation, with the trait and the type it is for resolved.
#[derive(Debug, Clone, Copy, PartialEq, Eq, Structural)]
pub struct ImplEntry {
    pub trait_name: TraitLocation,
    pub typ: TypeLocation,
    pub impl_module: u32,
    pub impl_index: u32,
}

/// A generic type and its number of type parameters.
#[derive(Debug, Clone, Copy, PartialEq, Eq, Structural)]
pub struct GenericEntry {
    pub location: TypeLocation,
    pub arity: u32,
}

#[derive(Debug)]
pub struct ResolvedImport {
    pub name: String,
    pub location: TypeLocation,
}

/// The imports of one module resolved to where their names are defined.
#[derive(Debug)]
pub struct ImportResolution {
    pub source_module: u32,
    pub resolved: Vec<ResolvedImport>,
}

#[derive(Debug)]
pub struct ResolutionTable {
    pub modules: Vec<ModuleEntry>,
    pub types: Vec<TypeEntry>,
    pub traits: Vec<TraitEntry>,
    pub impls: Vec<ImplEntry>,
    pub generics: Vec<GenericEntry>,
    pub imports: Vec<ImportResolution>,
}

#[derive(Debug)]
pub struct Program {
    pub modules: Vec<ModuleDef>,
    pub resolution: ResolutionTable,
}

} // verus!
