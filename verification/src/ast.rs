//! The program representation that verification reads: modules and the
//! definitions, imports and exports they hold.

use vstd::prelude::*;

use crate::text::same_text;

verus! {

/// Source location of a definition (byte offsets).
#[derive(Clone, Copy, Debug, PartialEq, Eq)]
pub struct Span {
    pub start: u32,
    pub end: u32,
}

#[derive(Clone, Copy, Debug, PartialEq, Eq)]
pub enum Visibility {
    Public,
    Private,
}

#[derive(Clone, Debug)]
pub struct TypeName(pub String);

#[derive(Clone, Debug)]
pub struct TraitName(pub String);

#[derive(Clone, Debug)]
pub struct VariantName(pub String);

#[derive(Clone, Debug)]
pub struct FieldName(pub String);

#[derive(Clone, Debug)]
pub struct MethodName(pub String);

#[derive(Clone, Debug)]
pub struct TypeParamName(pub String);

#[derive(Debug)]
pub struct TypeApplication {
    pub constructor: TypeName,
    pub args: Vec<TypeExpr>,
}

#[derive(Debug)]
pub struct TraitBound {
    pub trait_name: TraitName,
    pub args: Vec<TypeExpr>,
}

/// A type as written in a definition.
#[derive(Debug)]
pub enum TypeExpr {
    Named(TypeName),
    Application(TypeApplication),
    Param(TypeParamName),
    BoundedParam { bounds: Vec<TraitName> },
    Ref { inner: Box<TypeExpr> },
    MutRef { inner: Box<TypeExpr> },
    Boxed(Box<TypeExpr>),
    Tuple { elements: Vec<TypeExpr> },
    Array { element: Box<TypeExpr>, size: u64 },
    Slice { element: Box<TypeExpr> },
    FnPtr { params: Vec<TypeExpr>, return_: Box<TypeExpr> },
    DynTrait { bounds: Vec<TraitBound> },
    ImplTrait { bounds: Vec<TraitBound> },
    InstanceRef(TypeApplication),
    QualifiedPath { base: Box<TypeExpr>, member: TypeName },
    SelfType,
    Unit,
    Never,
}

#[derive(Debug)]
pub struct GenericParamDef {
    pub name: TypeParamName,
    pub bounds: Vec<TraitBound>,
    pub default: Option<TypeExpr>,
}

#[derive(Debug)]
pub struct TypedField {
    pub name: FieldName,
    pub typ: TypeExpr,
}

#[derive(Debug)]
pub enum EnumChild {
    Variant { name: VariantName, span: Span },
    DataVariant { name: VariantName, payload: TypeExpr, span: Span },
    StructVariant { name: VariantName, fields: Vec<TypedField>, span: Span },
    NestedEnum(EnumDef),
    NestedStruct(StructDef),
}

#[derive(Debug)]
pub enum StructChild {
    TypedField { name: FieldName, visibility: Visibility, typ: TypeExpr, span: Span },
    SelfTypedField { name: TypeName, visibility: Visibility, span: Span },
    NestedEnum(EnumDef),
    NestedStruct(StructDef),
}

#[derive(Debug)]
pub struct EnumDef {
    pub name: TypeName,
    pub visibility: Visibility,
    pub generic_params: Vec<GenericParamDef>,
    pub derives: Vec<TraitName>,
    pub children: Vec<EnumChild>,
    pub span: Span,
}

#[derive(Debug)]
pub struct StructDef {
    pub name: TypeName,
    pub visibility: Visibility,
    pub generic_params: Vec<GenericParamDef>,
    pub derives: Vec<TraitName>,
    pub children: Vec<StructChild>,
    pub span: Span,
}

#[derive(Debug)]
pub struct NewtypeDef {
    pub name: TypeName,
    pub visibility: Visibility,
    pub generic_params: Vec<GenericParamDef>,
    pub wraps: TypeExpr,
    pub span: Span,
}

/// The value of a constant. A float is held by its decimal text, as
/// Rust's `{:?}` prints it; nothing in verification computes with it.
#[derive(Debug)]
pub enum LiteralValue {
    Int(i64),
    Float(String),
    Str(String),
    Bool(bool),
    Char(char),
}

#[derive(Debug)]
pub struct ConstDef {
    pub name: TypeName,
    pub visibility: Visibility,
    pub typ: TypeExpr,
    pub value: LiteralValue,
    pub span: Span,
}

#[derive(Debug)]
pub enum ExportItem {
    Type_(TypeName),
    Trait(TraitName),
}

#[derive(Debug)]
pub enum ImportItem {
    Type_(TypeName),
    Trait(TraitName),
}

#[derive(Debug)]
pub struct ModuleImport {
    pub source: TypeName,
    pub names: Vec<ImportItem>,
}

#[derive(Debug)]
pub struct ParamName(pub String);

/// A method parameter: `self` in one of its three forms, or a named one.
#[derive(Debug)]
pub enum Param {
    BorrowNamed { name: ParamName, typ: TypeExpr },
    MutBorrowNamed { name: ParamName, typ: TypeExpr },
    Named { name: ParamName, typ: TypeExpr },
    BorrowSelf,
    MutBorrowSelf,
    OwnedSelf,
    Bare { name: ParamName },
}

#[derive(Debug)]
pub struct MethodSig {
    pub name: MethodName,
    pub generic_params: Vec<GenericParamDef>,
    pub params: Vec<Param>,
    pub return_type: Option<TypeExpr>,
}

#[derive(Debug)]
pub struct AssociatedTypeDef {
    pub name: TypeName,
    pub default: Option<TypeExpr>,
}

#[derive(Debug)]
pub struct TraitDeclDef {
    pub name: TraitName,
    pub visibility: Visibility,
    pub generic_params: Vec<GenericParamDef>,
    pub super_traits: Vec<TraitBound>,
    pub signatures: Vec<MethodSig>,
    pub associated_types: Vec<AssociatedTypeDef>,
    pub span: Span,
}

/// A method of a trait implementation; its body is not read here.
#[derive(Debug)]
pub struct MethodDef {
    pub name: MethodName,
    pub generic_params: Vec<GenericParamDef>,
    pub params: Vec<Param>,
    pub return_type: Option<TypeExpr>,
}

#[derive(Debug)]
pub struct AssociatedTypeImpl {
    pub name: TypeName,
    pub typ: TypeExpr,
}

#[derive(Debug)]
pub struct TraitImplDef {
    pub trait_name: TraitName,
    pub generic_params: Vec<GenericParamDef>,
    pub typ: TypeExpr,
    pub trait_args: Vec<TypeExpr>,
    pub methods: Vec<MethodDef>,
    pub associated_types: Vec<AssociatedTypeImpl>,
    pub span: Span,
}

#[derive(Debug)]
pub struct FfiFunction {
    pub name: MethodName,
    pub params: Vec<Param>,
    pub return_type: Option<TypeExpr>,
}

#[derive(Debug)]
pub struct FfiDef {
    pub library: TypeName,
    pub functions: Vec<FfiFunction>,
    pub span: Span,
}

/// One module of a program: its exports and imports and the definitions
/// at its scope.
#[derive(Debug)]
pub struct ModuleDef {
    pub name: TypeName,
    pub visibility: Visibility,
    pub exports: Vec<ExportItem>,
    pub imports: Vec<ModuleImport>,
    pub enums: Vec<EnumDef>,
    pub structs: Vec<StructDef>,
    pub newtypes: Vec<NewtypeDef>,
    pub consts: Vec<ConstDef>,
    pub trait_decls: Vec<TraitDeclDef>,
    pub trait_impls: Vec<TraitImplDef>,
    pub ffi: Vec<FfiDef>,
    pub span: Span,
}

/// The names that the language itself provides, and how many type
/// arguments each takes.
pub struct Primitive;

pub open spec fn primitive_arity(name: Seq<char>) -> Option<nat> {
    if name == "Vec"@ || name == "Option"@ {
        Some(1)
    } else if name == "Result"@ {
        Some(2)
    } else if name == "U8"@ || name == "U16"@ || name == "U32"@ || name == "U64"@
        || name == "I8"@ || name == "I16"@ || name == "I32"@ || name == "I64"@
        || name == "F32"@ || name == "F64"@ || name == "Bool"@ || name == "Char"@
        || name == "String"@ {
        Some(0)
    } else {
        None
    }
}

impl Primitive {
    pub fn arity_of(name: &str) -> (r: Option<u8>)
        ensures
            r matches Some(a) ==> primitive_arity(name@) == Some(a as nat),
            r is None ==> primitive_arity(name@) is None,
    {
        if same_text(name, "Vec") || same_text(name, "Option") {
            Some(1)
        } else if same_text(name, "Result") {
            Some(2)
        } else if same_text(name, "U8") || same_text(name, "U16") || same_text(name, "U32")
            || same_text(name, "U64") || same_text(name, "I8") || same_text(name, "I16")
            || same_text(name, "I32") || same_text(name, "I64") || same_text(name, "F32")
            || same_text(name, "F64") || same_text(name, "Bool") || same_text(name, "Char")
            || same_text(name, "String") {
            Some(0)
        } else {
            None
        }
    }

    pub fn is_primitive(name: &str) -> (r: bool)
        ensures
            r == primitive_arity(name@) is Some,
    {
        Self::arity_of(name).is_some()
    }
}

} // verus!
