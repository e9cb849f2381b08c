//! Structural verification of a program, in five tiers: module linking,
//! the type graph, trait structure, scopes, literals. Every tier runs, and
//! every problem found is reported.

use vstd::prelude::*;

use crate::ast::{
    Visibility, AssociatedTypeDef, AssociatedTypeImpl, ConstDef, EnumChild, EnumDef, ExportItem, FfiDef, ImportItem, ModuleImport, FfiFunction, GenericParamDef, MethodDef, MethodSig, ModuleDef,
    NewtypeDef, Param, StructChild, StructDef, TraitBound, TraitDeclDef, TraitImplDef, TraitName, TypeExpr,
    TypedField, LiteralValue,
};
use crate::index::{
    cycles_view, import_cycles, is_import_cycle, ix_trait_exists, ix_type_arity, ix_type_exists, lemma_reported_cycles_are_cycles,
    index_of, module_bindings, Index, IndexView,
};
use crate::table::map_of;
use crate::table::NameSet;
use crate::messages::{
    msg_duplicate_generic, msg_duplicate_name, msg_duplicate_trait, msg_duplicate_type, msg_incompatible,
    msg_nested_collision, msg_out_of_range, msg_private_in_field, msg_private_in_signature, msg_exports_private,
    write_private_in_field, write_private_in_signature, write_exports_private, write_duplicate_generic, write_duplicate_name, write_duplicate_trait,
    write_duplicate_type, write_incompatible, write_nested_collision, write_out_of_range,
    msg_extra_method, msg_missing_assoc_type, msg_missing_method, msg_param_count, msg_return_mismatch,
    msg_self_kind_mismatch, write_extra_method, write_missing_assoc_type, write_missing_method,
    write_param_count, write_return_mismatch, write_self_kind_mismatch,
    msg_circular, msg_exports_missing_trait, msg_exports_missing_type, msg_imported_twice, msg_missing_module,
    msg_not_exported, write_circular, write_exports_missing_trait, write_exports_missing_type,
    write_imported_twice, write_missing_module, write_not_exported,
    msg_arity, msg_self_typed_field, msg_unknown_bound, msg_unknown_constructor, msg_unknown_impl_trait,
    msg_unknown_instance, msg_unknown_param, msg_unknown_trait, msg_unknown_type, write_arity,
    write_self_typed_field, write_unknown_bound, write_unknown_constructor, write_unknown_impl_trait,
    write_unknown_instance, write_unknown_param, write_unknown_trait, write_unknown_type,
};

verus! {

/// A problem found, by the module it is in and its message.
pub struct ErrorText {
    pub module: Seq<char>,
    pub message: Seq<char>,
}

pub open spec fn one(module: Seq<char>, message: Seq<char>) -> Seq<ErrorText> {
    seq![ErrorText { module, message }]
}

/// A problem found in a module.
#[derive(Debug)]
pub struct VerifyError {
    pub module: String,
    pub message: String,
}

impl View for VerifyError {
    type V = ErrorText;

    open spec fn view(&self) -> ErrorText {
        ErrorText { module: self.module@, message: self.message@ }
    }
}

pub open spec fn error_texts(errors: Seq<VerifyError>) -> Seq<ErrorText> {
    Seq::new(errors.len(), |i: int| errors[i]@)
}

// ---------------------------------------------------------------------------
// Tier 2: every type and trait that a definition names is in scope.

pub open spec fn param_names(ps: Seq<GenericParamDef>) -> Seq<Seq<char>> {
    Seq::new(ps.len(), |i: int| ps[i].name.0@)
}

/// The problems in a type expression, with the generic parameters of
/// `scope` in scope.
pub open spec fn type_expr_errors(ix: IndexView, mi: int, mn: Seq<char>, scope: Seq<Seq<char>>, e: TypeExpr) -> Seq<ErrorText>
    decreases e,
{
    match e {
        TypeExpr::Named(n) => if !ix_type_exists(ix, mi, n.0@) && !scope.contains(n.0@) {
            one(mn, msg_unknown_type(n.0@))
        } else {
            seq![]
        },
        TypeExpr::Application(app) => {
            let c = app.constructor.0@;
            let head = if !ix_type_exists(ix, mi, c) && !scope.contains(c) {
                one(mn, msg_unknown_constructor(c))
            } else {
                match ix_type_arity(ix, mi, c) {
                    Some(expected) => if app.args.len() != expected {
                        one(mn, msg_arity(c, expected, app.args.len() as nat))
                    } else {
                        seq![]
                    },
                    None => seq![],
                }
            };
            head + type_exprs_errors(ix, mi, mn, scope, app.args@)
        },
        TypeExpr::Param(n) => if !scope.contains(n.0@) {
            one(mn, msg_unknown_param(n.0@))
        } else {
            seq![]
        },
        TypeExpr::BoundedParam { bounds } => bound_name_errors(ix, mi, mn, bounds@),
        TypeExpr::Ref { inner } => type_expr_errors(ix, mi, mn, scope, *inner),
        TypeExpr::MutRef { inner } => type_expr_errors(ix, mi, mn, scope, *inner),
        TypeExpr::Boxed(inner) => type_expr_errors(ix, mi, mn, scope, *inner),
        TypeExpr::Tuple { elements } => type_exprs_errors(ix, mi, mn, scope, elements@),
        TypeExpr::Array { element, .. } => type_expr_errors(ix, mi, mn, scope, *element),
        TypeExpr::Slice { element } => type_expr_errors(ix, mi, mn, scope, *element),
        TypeExpr::FnPtr { params, return_ } => type_exprs_errors(ix, mi, mn, scope, params@)
            + type_expr_errors(ix, mi, mn, scope, *return_),
        TypeExpr::DynTrait { bounds } => trait_bounds_errors(ix, mi, mn, scope, bounds@),
        TypeExpr::ImplTrait { bounds } => trait_bounds_errors(ix, mi, mn, scope, bounds@),
        TypeExpr::InstanceRef(app) => (if !ix_type_exists(ix, mi, app.constructor.0@) {
            one(mn, msg_unknown_instance(app.constructor.0@))
        } else {
            seq![]
        }) + type_exprs_errors(ix, mi, mn, scope, app.args@),
        TypeExpr::QualifiedPath { base, .. } => type_expr_errors(ix, mi, mn, scope, *base),
        TypeExpr::SelfType => seq![],
        TypeExpr::Unit => seq![],
        TypeExpr::Never => seq![],
    }
}

pub open spec fn type_exprs_errors(ix: IndexView, mi: int, mn: Seq<char>, scope: Seq<Seq<char>>, es: Seq<TypeExpr>) -> Seq<ErrorText>
    decreases es,
{
    if es.len() == 0 {
        seq![]
    } else {
        type_exprs_errors(ix, mi, mn, scope, es.drop_last()) + type_expr_errors(ix, mi, mn, scope, es.last())
    }
}

pub open spec fn trait_bound_errors(ix: IndexView, mi: int, mn: Seq<char>, scope: Seq<Seq<char>>, b: TraitBound) -> Seq<ErrorText>
    decreases b,
{
    (if !ix_trait_exists(ix, mi, b.trait_name.0@) {
        one(mn, msg_unknown_trait(b.trait_name.0@))
    } else {
        seq![]
    }) + type_exprs_errors(ix, mi, mn, scope, b.args@)
}

pub open spec fn trait_bounds_errors(ix: IndexView, mi: int, mn: Seq<char>, scope: Seq<Seq<char>>, bs: Seq<TraitBound>) -> Seq<ErrorText>
    decreases bs,
{
    if bs.len() == 0 {
        seq![]
    } else {
        trait_bounds_errors(ix, mi, mn, scope, bs.drop_last()) + trait_bound_errors(ix, mi, mn, scope, bs.last())
    }
}

/// The bounds of a bounded parameter: each must be a trait or a type in scope.
pub open spec fn bound_name_errors(ix: IndexView, mi: int, mn: Seq<char>, bs: Seq<TraitName>) -> Seq<ErrorText>
    decreases bs.len(),
{
    if bs.len() == 0 {
        seq![]
    } else {
        let b = bs.last().0@;
        bound_name_errors(ix, mi, mn, bs.drop_last()) + if !ix_trait_exists(ix, mi, b) && !ix_type_exists(ix, mi, b) {
            one(mn, msg_unknown_bound(b))
        } else {
            seq![]
        }
    }
}

pub open spec fn field_errors(ix: IndexView, mi: int, mn: Seq<char>, scope: Seq<Seq<char>>, fs: Seq<TypedField>) -> Seq<ErrorText>
    decreases fs.len(),
{
    if fs.len() == 0 {
        seq![]
    } else {
        field_errors(ix, mi, mn, scope, fs.drop_last()) + type_expr_errors(ix, mi, mn, scope, fs.last().typ)
    }
}

/// The problems in the children of an enum; a nested definition brings its
/// own generic parameters into scope.
pub open spec fn enum_children_errors(ix: IndexView, mi: int, mn: Seq<char>, scope: Seq<Seq<char>>, cs: Seq<EnumChild>) -> Seq<ErrorText>
    decreases cs,
{
    if cs.len() == 0 {
        seq![]
    } else {
        enum_children_errors(ix, mi, mn, scope, cs.drop_last()) + match cs.last() {
            EnumChild::Variant { .. } => seq![],
            EnumChild::DataVariant { payload, .. } => type_expr_errors(ix, mi, mn, scope, payload),
            EnumChild::StructVariant { fields, .. } => field_errors(ix, mi, mn, scope, fields@),
            EnumChild::NestedEnum(e) => enum_children_errors(ix, mi, mn, scope + param_names(e.generic_params@), e.children@)
                + generic_bounds_errors(ix, mi, mn, scope + param_names(e.generic_params@), e.generic_params@),
            EnumChild::NestedStruct(s) => struct_children_errors(ix, mi, mn, scope + param_names(s.generic_params@), s.children@)
                + generic_bounds_errors(ix, mi, mn, scope + param_names(s.generic_params@), s.generic_params@),
        }
    }
}

/// The problems in the children of a struct. A self-typed field's type
/// must be a type in scope (generic parameters do not count).
pub open spec fn struct_children_errors(ix: IndexView, mi: int, mn: Seq<char>, scope: Seq<Seq<char>>, cs: Seq<StructChild>) -> Seq<ErrorText>
    decreases cs,
{
    if cs.len() == 0 {
        seq![]
    } else {
        struct_children_errors(ix, mi, mn, scope, cs.drop_last()) + match cs.last() {
            StructChild::TypedField { typ, .. } => type_expr_errors(ix, mi, mn, scope, typ),
            StructChild::SelfTypedField { name, .. } => if !ix_type_exists(ix, mi, name.0@) {
                one(mn, msg_self_typed_field(name.0@))
            } else {
                seq![]
            },
            StructChild::NestedEnum(e) => enum_children_errors(ix, mi, mn, scope + param_names(e.generic_params@), e.children@)
                + generic_bounds_errors(ix, mi, mn, scope + param_names(e.generic_params@), e.generic_params@),
            StructChild::NestedStruct(s) => struct_children_errors(ix, mi, mn, scope + param_names(s.generic_params@), s.children@)
                + generic_bounds_errors(ix, mi, mn, scope + param_names(s.generic_params@), s.generic_params@),
        }
    }
}

/// The problems in the bounds and defaults of generic parameters.
pub open spec fn generic_bounds_errors(ix: IndexView, mi: int, mn: Seq<char>, scope: Seq<Seq<char>>, ps: Seq<GenericParamDef>) -> Seq<ErrorText>
    decreases ps.len(),
{
    if ps.len() == 0 {
        seq![]
    } else {
        generic_bounds_errors(ix, mi, mn, scope, ps.drop_last()) + trait_bounds_errors(ix, mi, mn, scope, ps.last().bounds@)
            + match ps.last().default {
            Some(d) => type_expr_errors(ix, mi, mn, scope, d),
            None => seq![],
        }
    }
}

pub open spec fn param_errors(ix: IndexView, mi: int, mn: Seq<char>, scope: Seq<Seq<char>>, p: Param) -> Seq<ErrorText> {
    match p {
        Param::BorrowNamed { typ, .. } => type_expr_errors(ix, mi, mn, scope, typ),
        Param::MutBorrowNamed { typ, .. } => type_expr_errors(ix, mi, mn, scope, typ),
        Param::Named { typ, .. } => type_expr_errors(ix, mi, mn, scope, typ),
        _ => seq![],
    }
}

pub open spec fn params_errors(ix: IndexView, mi: int, mn: Seq<char>, scope: Seq<Seq<char>>, ps: Seq<Param>) -> Seq<ErrorText>
    decreases ps.len(),
{
    if ps.len() == 0 {
        seq![]
    } else {
        params_errors(ix, mi, mn, scope, ps.drop_last()) + param_errors(ix, mi, mn, scope, ps.last())
    }
}

pub open spec fn opt_type_errors(ix: IndexView, mi: int, mn: Seq<char>, scope: Seq<Seq<char>>, t: Option<TypeExpr>) -> Seq<ErrorText> {
    match t {
        Some(e) => type_expr_errors(ix, mi, mn, scope, e),
        None => seq![],
    }
}

/// The problems in a method's parameter and return types, with the
/// method's own generic parameters in scope as well.
pub open spec fn method_types_errors(
    ix: IndexView,
    mi: int,
    mn: Seq<char>,
    scope: Seq<Seq<char>>,
    generics: Seq<GenericParamDef>,
    params: Seq<Param>,
    ret: Option<TypeExpr>,
) -> Seq<ErrorText> {
    let sc = scope + param_names(generics);
    params_errors(ix, mi, mn, sc, params) + opt_type_errors(ix, mi, mn, sc, ret) + generic_bounds_errors(ix, mi, mn, sc, generics)
}

pub open spec fn enum_defs_errors(ix: IndexView, mi: int, mn: Seq<char>, ds: Seq<EnumDef>) -> Seq<ErrorText>
    decreases ds.len(),
{
    if ds.len() == 0 {
        seq![]
    } else {
        let d = ds.last();
        enum_defs_errors(ix, mi, mn, ds.drop_last()) + {
            let sc = param_names(d.generic_params@);
            enum_children_errors(ix, mi, mn, sc, d.children@) + generic_bounds_errors(ix, mi, mn, sc, d.generic_params@)
        }
    }
}

pub open spec fn struct_defs_errors(ix: IndexView, mi: int, mn: Seq<char>, ds: Seq<StructDef>) -> Seq<ErrorText>
    decreases ds.len(),
{
    if ds.len() == 0 {
        seq![]
    } else {
        let d = ds.last();
        struct_defs_errors(ix, mi, mn, ds.drop_last()) + {
            let sc = param_names(d.generic_params@);
            struct_children_errors(ix, mi, mn, sc, d.children@) + generic_bounds_errors(ix, mi, mn, sc, d.generic_params@)
        }
    }
}

pub open spec fn newtype_defs_errors(ix: IndexView, mi: int, mn: Seq<char>, ds: Seq<NewtypeDef>) -> Seq<ErrorText>
    decreases ds.len(),
{
    if ds.len() == 0 {
        seq![]
    } else {
        let d = ds.last();
        newtype_defs_errors(ix, mi, mn, ds.drop_last()) + {
            let sc = param_names(d.generic_params@);
            type_expr_errors(ix, mi, mn, sc, d.wraps) + generic_bounds_errors(ix, mi, mn, sc, d.generic_params@)
        }
    }
}

pub open spec fn const_defs_errors(ix: IndexView, mi: int, mn: Seq<char>, ds: Seq<ConstDef>) -> Seq<ErrorText>
    decreases ds.len(),
{
    if ds.len() == 0 {
        seq![]
    } else {
        let d = ds.last();
        const_defs_errors(ix, mi, mn, ds.drop_last()) + type_expr_errors(ix, mi, mn, seq![], d.typ)
    }
}

pub open spec fn signatures_errors(ix: IndexView, mi: int, mn: Seq<char>, scope: Seq<Seq<char>>, ds: Seq<MethodSig>) -> Seq<ErrorText>
    decreases ds.len(),
{
    if ds.len() == 0 {
        seq![]
    } else {
        let d = ds.last();
        signatures_errors(ix, mi, mn, scope, ds.drop_last()) + method_types_errors(ix, mi, mn, scope, d.generic_params@, d.params@, d.return_type)
    }
}

pub open spec fn method_defs_errors(ix: IndexView, mi: int, mn: Seq<char>, scope: Seq<Seq<char>>, ds: Seq<MethodDef>) -> Seq<ErrorText>
    decreases ds.len(),
{
    if ds.len() == 0 {
        seq![]
    } else {
        let d = ds.last();
        method_defs_errors(ix, mi, mn, scope, ds.drop_last()) + method_types_errors(ix, mi, mn, scope, d.generic_params@, d.params@, d.return_type)
    }
}

pub open spec fn trait_decls_errors(ix: IndexView, mi: int, mn: Seq<char>, ds: Seq<TraitDeclDef>) -> Seq<ErrorText>
    decreases ds.len(),
{
    if ds.len() == 0 {
        seq![]
    } else {
        let d = ds.last();
        trait_decls_errors(ix, mi, mn, ds.drop_last()) + {
            let sc = param_names(d.generic_params@);
            trait_bounds_errors(ix, mi, mn, sc, d.super_traits@) + signatures_errors(ix, mi, mn, sc, d.signatures@)
                + generic_bounds_errors(ix, mi, mn, sc, d.generic_params@)
        }
    }
}

pub open spec fn trait_impls_errors(ix: IndexView, mi: int, mn: Seq<char>, ds: Seq<TraitImplDef>) -> Seq<ErrorText>
    decreases ds.len(),
{
    if ds.len() == 0 {
        seq![]
    } else {
        let d = ds.last();
        trait_impls_errors(ix, mi, mn, ds.drop_last()) + {
            let sc = param_names(d.generic_params@);
            (if !ix_trait_exists(ix, mi, d.trait_name.0@) {
                one(mn, msg_unknown_impl_trait(d.trait_name.0@))
            } else {
                seq![]
            }) + type_expr_errors(ix, mi, mn, sc, d.typ) + type_exprs_errors(ix, mi, mn, sc, d.trait_args@)
                + method_defs_errors(ix, mi, mn, sc, d.methods@) + generic_bounds_errors(ix, mi, mn, sc, d.generic_params@)
        }
    }
}

pub open spec fn ffi_functions_errors(ix: IndexView, mi: int, mn: Seq<char>, ds: Seq<FfiFunction>) -> Seq<ErrorText>
    decreases ds.len(),
{
    if ds.len() == 0 {
        seq![]
    } else {
        let d = ds.last();
        ffi_functions_errors(ix, mi, mn, ds.drop_last()) + params_errors(ix, mi, mn, seq![], d.params@) + opt_type_errors(ix, mi, mn, seq![], d.return_type)
    }
}

pub open spec fn ffi_defs_errors(ix: IndexView, mi: int, mn: Seq<char>, ds: Seq<FfiDef>) -> Seq<ErrorText>
    decreases ds.len(),
{
    if ds.len() == 0 {
        seq![]
    } else {
        let d = ds.last();
        ffi_defs_errors(ix, mi, mn, ds.drop_last()) + ffi_functions_errors(ix, mi, mn, d.functions@)
    }
}

/// The type-graph problems of one module: every type and trait that its
/// definitions name must be in scope, with the right number of arguments.
pub open spec fn module_type_errors(ix: IndexView, mi: int, m: ModuleDef) -> Seq<ErrorText> {
    let mn = m.name.0@;
    enum_defs_errors(ix, mi, mn, m.enums@) + struct_defs_errors(ix, mi, mn, m.structs@)
        + newtype_defs_errors(ix, mi, mn, m.newtypes@) + const_defs_errors(ix, mi, mn, m.consts@)
        + trait_decls_errors(ix, mi, mn, m.trait_decls@) + trait_impls_errors(ix, mi, mn, m.trait_impls@)
        + ffi_defs_errors(ix, mi, mn, m.ffi@)
}

/// Tier 2 over the first `n` modules.
pub open spec fn type_graph_errors(ms: Seq<ModuleDef>, ix: IndexView, n: nat) -> Seq<ErrorText>
    decreases n,
{
    if n == 0 || n > ms.len() {
        seq![]
    } else {
        type_graph_errors(ms, ix, (n - 1) as nat) + module_type_errors(ix, n - 1, ms[n - 1])
    }
}

// ---------------------------------------------------------------------------
// Tier 1: modules link: imports resolve to exports, exports to definitions,
// and no module imports from itself through others.

pub open spec fn cycle_names(ms: Seq<ModuleDef>, c: Seq<usize>) -> Seq<Seq<char>> {
    Seq::new(c.len(), |i: int| ms[c[i] as int].name.0@)
}

/// One problem per import cycle, reported in the cycle's first module.
pub open spec fn cycle_errors(ms: Seq<ModuleDef>, cs: Seq<Seq<usize>>) -> Seq<ErrorText> {
    Seq::new(cs.len(), |i: int| ErrorText {
        module: ms[cs[i][0] as int].name.0@,
        message: msg_circular(cycle_names(ms, cs[i])),
    })
}

pub open spec fn export_errors(ix: IndexView, mi: int, mn: Seq<char>, es: Seq<ExportItem>) -> Seq<ErrorText>
    decreases es.len(),
{
    if es.len() == 0 {
        seq![]
    } else {
        export_errors(ix, mi, mn, es.drop_last()) + match es.last() {
            ExportItem::Type_(n) => if !(0 <= mi < ix.types.len() && ix.types[mi].contains_key(n.0@)) {
                one(mn, msg_exports_missing_type(n.0@))
            } else {
                seq![]
            },
            ExportItem::Trait(n) => if !(0 <= mi < ix.traits.len() && ix.traits[mi].contains_key(n.0@)) {
                one(mn, msg_exports_missing_trait(n.0@))
            } else {
                seq![]
            },
        }
    }
}

pub open spec fn item_name(it: ImportItem) -> Seq<char> {
    match it {
        ImportItem::Type_(n) => n.0@,
        ImportItem::Trait(n) => n.0@,
    }
}

pub open spec fn item_names(its: Seq<ImportItem>) -> Seq<Seq<char>> {
    Seq::new(its.len(), |i: int| item_name(its[i]))
}

/// Whether the module at `smi` exports the item, as a type or a trait.
pub open spec fn item_is_exported(ix: IndexView, smi: usize, it: ImportItem) -> bool {
    match it {
        ImportItem::Type_(n) => smi < ix.exported_types.len() && ix.exported_types[smi as int].contains(n.0@),
        ImportItem::Trait(n) => smi < ix.exported_traits.len() && ix.exported_traits[smi as int].contains(n.0@),
    }
}

pub open spec fn item_kind_word(it: ImportItem) -> Seq<char> {
    match it {
        ImportItem::Type_(_) => "type"@,
        ImportItem::Trait(_) => "trait"@,
    }
}

/// The problems in the items of one import from the module at `smi`,
/// `seen` holding the names imported before it.
pub open spec fn item_errors(
    ix: IndexView,
    mn: Seq<char>,
    source: Seq<char>,
    smi: usize,
    seen: Set<Seq<char>>,
    its: Seq<ImportItem>,
) -> Seq<ErrorText>
    decreases its.len(),
{
    if its.len() == 0 {
        seq![]
    } else {
        let it = its.last();
        let before = seen + item_names(its.drop_last()).to_set();
        item_errors(ix, mn, source, smi, seen, its.drop_last()) + (if !item_is_exported(ix, smi, it) {
            one(mn, msg_not_exported(item_kind_word(it), item_name(it), source))
        } else {
            seq![]
        }) + (if before.contains(item_name(it)) {
            one(mn, msg_imported_twice(item_name(it)))
        } else {
            seq![]
        })
    }
}

/// The names imported by those imports whose source module exists.
pub open spec fn imported_before(ix: IndexView, imps: Seq<ModuleImport>) -> Set<Seq<char>>
    decreases imps.len(),
{
    if imps.len() == 0 {
        Set::empty()
    } else if ix.modules.contains_key(imps.last().source.0@) {
        imported_before(ix, imps.drop_last()) + item_names(imps.last().names@).to_set()
    } else {
        imported_before(ix, imps.drop_last())
    }
}

pub open spec fn import_errors(ix: IndexView, mn: Seq<char>, imps: Seq<ModuleImport>) -> Seq<ErrorText>
    decreases imps.len(),
{
    if imps.len() == 0 {
        seq![]
    } else {
        let src = imps.last().source.0@;
        import_errors(ix, mn, imps.drop_last()) + if !ix.modules.contains_key(src) {
            one(mn, msg_missing_module(src))
        } else {
            item_errors(ix, mn, src, ix.modules[src], imported_before(ix, imps.drop_last()), imps.last().names@)
        }
    }
}

pub open spec fn module_link_errors(ix: IndexView, mi: int, m: ModuleDef) -> Seq<ErrorText> {
    export_errors(ix, mi, m.name.0@, m.exports@) + import_errors(ix, m.name.0@, m.imports@)
}

pub open spec fn link_errors(ms: Seq<ModuleDef>, ix: IndexView, n: nat) -> Seq<ErrorText>
    decreases n,
{
    if n == 0 || n > ms.len() {
        seq![]
    } else {
        link_errors(ms, ix, (n - 1) as nat) + module_link_errors(ix, n - 1, ms[n - 1])
    }
}

/// Tier 1: the import cycles, then each module's exports and imports.
pub open spec fn import_tier_errors(ms: Seq<ModuleDef>, ix: IndexView) -> Seq<ErrorText> {
    cycle_errors(ms, import_cycles(ix.import_graph)) + link_errors(ms, ix, ms.len())
}

// ---------------------------------------------------------------------------
// Tier 3: each trait implementation matches its trait's declaration.

/// The first declaration of the named trait in a list.
pub open spec fn first_trait_decl(tds: Seq<TraitDeclDef>, name: Seq<char>) -> Option<TraitDeclDef>
    decreases tds.len(),
{
    if tds.len() == 0 {
        None
    } else if tds[0].name.0@ == name {
        Some(tds[0])
    } else {
        first_trait_decl(tds.drop_first(), name)
    }
}

pub open spec fn names_trait(items: Seq<ImportItem>, name: Seq<char>) -> bool {
    exists|i: int| 0 <= i < items.len() && (#[trigger] items[i] matches ImportItem::Trait(t) && t.0@ == name)
}

/// The declaration of the named trait in the first import that imports it
/// from an existing module that declares it.
pub open spec fn decl_via_imports(ms: Seq<ModuleDef>, ix: IndexView, imps: Seq<ModuleImport>, name: Seq<char>) -> Option<TraitDeclDef>
    decreases imps.len(),
{
    if imps.len() == 0 {
        None
    } else {
        let imp = imps[0];
        let found = if names_trait(imp.names@, name) && ix.modules.contains_key(imp.source.0@) {
            first_trait_decl(ms[ix.modules[imp.source.0@] as int].trait_decls@, name)
        } else {
            None
        };
        if found is Some {
            found
        } else {
            decl_via_imports(ms, ix, imps.drop_first(), name)
        }
    }
}

/// The declaration a trait implementation in module `m` answers to: the
/// module's own, else one it imports.
pub open spec fn find_trait_decl_spec(ms: Seq<ModuleDef>, ix: IndexView, m: ModuleDef, name: Seq<char>) -> Option<TraitDeclDef> {
    match first_trait_decl(m.trait_decls@, name) {
        Some(d) => Some(d),
        None => decl_via_imports(ms, ix, m.imports@, name),
    }
}

pub open spec fn has_method(methods: Seq<MethodDef>, name: Seq<char>) -> bool {
    exists|j: int| 0 <= j < methods.len() && (#[trigger] methods[j]).name.0@ == name
}

pub open spec fn has_signature(sigs: Seq<MethodSig>, name: Seq<char>) -> bool {
    exists|j: int| 0 <= j < sigs.len() && (#[trigger] sigs[j]).name.0@ == name
}

pub open spec fn first_signature(sigs: Seq<MethodSig>, name: Seq<char>) -> Option<MethodSig>
    decreases sigs.len(),
{
    if sigs.len() == 0 {
        None
    } else if sigs[0].name.0@ == name {
        Some(sigs[0])
    } else {
        first_signature(sigs.drop_first(), name)
    }
}

pub open spec fn has_assoc_impl(ats: Seq<AssociatedTypeImpl>, name: Seq<char>) -> bool {
    exists|j: int| 0 <= j < ats.len() && (#[trigger] ats[j]).name.0@ == name
}

/// How a parameter takes `self`: by reference, by mutable reference, by
/// value, or not at all.
pub open spec fn self_kind_spec(p: Param) -> u8 {
    match p {
        Param::BorrowSelf => 0,
        Param::MutBorrowSelf => 1,
        Param::OwnedSelf => 2,
        _ => 3,
    }
}

pub open spec fn missing_method_errors(mn: Seq<char>, tn: Seq<char>, sigs: Seq<MethodSig>, methods: Seq<MethodDef>) -> Seq<ErrorText>
    decreases sigs.len(),
{
    if sigs.len() == 0 {
        seq![]
    } else {
        missing_method_errors(mn, tn, sigs.drop_last(), methods) + if !has_method(methods, sigs.last().name.0@) {
            one(mn, msg_missing_method(tn, sigs.last().name.0@))
        } else {
            seq![]
        }
    }
}

pub open spec fn extra_method_errors(mn: Seq<char>, tn: Seq<char>, sigs: Seq<MethodSig>, methods: Seq<MethodDef>) -> Seq<ErrorText>
    decreases methods.len(),
{
    if methods.len() == 0 {
        seq![]
    } else {
        extra_method_errors(mn, tn, sigs, methods.drop_last()) + if !has_signature(sigs, methods.last().name.0@) {
            one(mn, msg_extra_method(tn, methods.last().name.0@))
        } else {
            seq![]
        }
    }
}

/// The problems of one method against its declaration: parameter count,
/// presence of a return type, and the way it takes `self`.
pub open spec fn signature_mismatch_errors(mn: Seq<char>, tn: Seq<char>, sig: MethodSig, method: MethodDef) -> Seq<ErrorText> {
    let name = method.name.0@;
    (if method.params.len() != sig.params.len() {
        one(mn, msg_param_count(tn, name, method.params.len() as nat, sig.params.len() as nat))
    } else {
        seq![]
    }) + (if (method.return_type is Some) != (sig.return_type is Some) {
        one(mn, msg_return_mismatch(tn, name, if sig.return_type is Some {
            "expected but missing"@
        } else {
            "present but not in declaration"@
        }))
    } else {
        seq![]
    }) + (if method.params.len() > 0 && sig.params.len() > 0 && self_kind_spec(method.params@[0]) != self_kind_spec(
        sig.params@[0],
    ) {
        one(mn, msg_self_kind_mismatch(tn, name))
    } else {
        seq![]
    })
}

pub open spec fn signature_errors(mn: Seq<char>, tn: Seq<char>, sigs: Seq<MethodSig>, methods: Seq<MethodDef>) -> Seq<ErrorText>
    decreases methods.len(),
{
    if methods.len() == 0 {
        seq![]
    } else {
        signature_errors(mn, tn, sigs, methods.drop_last()) + match first_signature(sigs, methods.last().name.0@) {
            Some(sig) => signature_mismatch_errors(mn, tn, sig, methods.last()),
            None => seq![],
        }
    }
}

pub open spec fn missing_assoc_errors(mn: Seq<char>, tn: Seq<char>, ats: Seq<AssociatedTypeDef>, provided: Seq<AssociatedTypeImpl>) -> Seq<ErrorText>
    decreases ats.len(),
{
    if ats.len() == 0 {
        seq![]
    } else {
        let at = ats.last();
        missing_assoc_errors(mn, tn, ats.drop_last(), provided) + if at.default is None && !has_assoc_impl(provided, at.name.0@) {
            one(mn, msg_missing_assoc_type(tn, at.name.0@))
        } else {
            seq![]
        }
    }
}

/// The structural problems of one trait implementation; none when its
/// trait's declaration cannot be found (tier 2 reports that).
pub open spec fn trait_impl_errors(ms: Seq<ModuleDef>, ix: IndexView, m: ModuleDef, ti: TraitImplDef) -> Seq<ErrorText> {
    let mn = m.name.0@;
    let tn = ti.trait_name.0@;
    match find_trait_decl_spec(ms, ix, m, tn) {
        None => seq![],
        Some(decl) => missing_method_errors(mn, tn, decl.signatures@, ti.methods@) + extra_method_errors(
            mn,
            tn,
            decl.signatures@,
            ti.methods@,
        ) + signature_errors(mn, tn, decl.signatures@, ti.methods@) + missing_assoc_errors(
            mn,
            tn,
            decl.associated_types@,
            ti.associated_types@,
        ),
    }
}

pub open spec fn trait_impls_structure_errors(ms: Seq<ModuleDef>, ix: IndexView, m: ModuleDef, tis: Seq<TraitImplDef>) -> Seq<ErrorText>
    decreases tis.len(),
{
    if tis.len() == 0 {
        seq![]
    } else {
        trait_impls_structure_errors(ms, ix, m, tis.drop_last()) + trait_impl_errors(ms, ix, m, tis.last())
    }
}

pub open spec fn structure_errors(ms: Seq<ModuleDef>, ix: IndexView, n: nat) -> Seq<ErrorText>
    decreases n,
{
    if n == 0 || n > ms.len() {
        seq![]
    } else {
        structure_errors(ms, ix, (n - 1) as nat) + trait_impls_structure_errors(ms, ix, ms[n - 1], ms[n - 1].trait_impls@)
    }
}

/// The index places every module name at a position of the program, and
/// its import graph has no more nodes than the program has modules.
pub open spec fn index_fits(ms: Seq<ModuleDef>, ix: IndexView) -> bool {
    &&& forall|k: Seq<char>| #[trigger] ix.modules.contains_key(k) ==> ix.modules[k] < ms.len()
    &&& ix.import_graph.len() <= ms.len()
}

// ---------------------------------------------------------------------------
// Tier 4: names are unique in their scope.

pub open spec fn enum_def_names(es: Seq<EnumDef>) -> Seq<Seq<char>> {
    Seq::new(es.len(), |i: int| es[i].name.0@)
}

pub open spec fn struct_def_names(ss: Seq<StructDef>) -> Seq<Seq<char>> {
    Seq::new(ss.len(), |i: int| ss[i].name.0@)
}

pub open spec fn newtype_def_names(ns: Seq<NewtypeDef>) -> Seq<Seq<char>> {
    Seq::new(ns.len(), |i: int| ns[i].name.0@)
}

pub open spec fn const_def_names(cs: Seq<ConstDef>) -> Seq<Seq<char>> {
    Seq::new(cs.len(), |i: int| cs[i].name.0@)
}

pub open spec fn trait_decl_names(ts: Seq<TraitDeclDef>) -> Seq<Seq<char>> {
    Seq::new(ts.len(), |i: int| ts[i].name.0@)
}

/// Nested types among enum children whose names are taken at top level.
pub open spec fn nested_enum_collisions(mn: Seq<char>, cs: Seq<EnumChild>, top: Set<Seq<char>>) -> Seq<ErrorText>
    decreases cs,
{
    if cs.len() == 0 {
        seq![]
    } else {
        nested_enum_collisions(mn, cs.drop_last(), top) + match cs.last() {
            EnumChild::NestedEnum(e) => (if top.contains(e.name.0@) {
                one(mn, msg_nested_collision(e.name.0@))
            } else {
                seq![]
            }) + nested_enum_collisions(mn, e.children@, top),
            EnumChild::NestedStruct(s) => (if top.contains(s.name.0@) {
                one(mn, msg_nested_collision(s.name.0@))
            } else {
                seq![]
            }) + nested_struct_collisions(mn, s.children@, top),
            _ => seq![],
        }
    }
}

/// Nested types among struct children whose names are taken at top level.
pub open spec fn nested_struct_collisions(mn: Seq<char>, cs: Seq<StructChild>, top: Set<Seq<char>>) -> Seq<ErrorText>
    decreases cs,
{
    if cs.len() == 0 {
        seq![]
    } else {
        nested_struct_collisions(mn, cs.drop_last(), top) + match cs.last() {
            StructChild::NestedEnum(e) => (if top.contains(e.name.0@) {
                one(mn, msg_nested_collision(e.name.0@))
            } else {
                seq![]
            }) + nested_enum_collisions(mn, e.children@, top),
            StructChild::NestedStruct(s) => (if top.contains(s.name.0@) {
                one(mn, msg_nested_collision(s.name.0@))
            } else {
                seq![]
            }) + nested_struct_collisions(mn, s.children@, top),
            _ => seq![],
        }
    }
}

/// Each enum's name must be new among the enums before it; its nested
/// types must not take a name of the module's top level, `top`.
pub open spec fn enum_scope_errors(mn: Seq<char>, top: Set<Seq<char>>, es: Seq<EnumDef>) -> Seq<ErrorText>
    decreases es.len(),
{
    if es.len() == 0 {
        seq![]
    } else {
        let e = es.last();
        let seen = enum_def_names(es.drop_last()).to_set();
        enum_scope_errors(mn, top, es.drop_last()) + (if seen.contains(e.name.0@) {
            one(mn, msg_duplicate_type(e.name.0@))
        } else {
            seq![]
        }) + nested_enum_collisions(mn, e.children@, top)
    }
}

pub open spec fn struct_scope_errors(mn: Seq<char>, base: Set<Seq<char>>, top: Set<Seq<char>>, ss: Seq<StructDef>) -> Seq<ErrorText>
    decreases ss.len(),
{
    if ss.len() == 0 {
        seq![]
    } else {
        let s = ss.last();
        let seen = base + struct_def_names(ss.drop_last()).to_set();
        struct_scope_errors(mn, base, top, ss.drop_last()) + (if seen.contains(s.name.0@) {
            one(mn, msg_duplicate_type(s.name.0@))
        } else {
            seq![]
        }) + nested_struct_collisions(mn, s.children@, top)
    }
}

pub open spec fn newtype_scope_errors(mn: Seq<char>, base: Set<Seq<char>>, ns: Seq<NewtypeDef>) -> Seq<ErrorText>
    decreases ns.len(),
{
    if ns.len() == 0 {
        seq![]
    } else {
        let seen = base + newtype_def_names(ns.drop_last()).to_set();
        newtype_scope_errors(mn, base, ns.drop_last()) + if seen.contains(ns.last().name.0@) {
            one(mn, msg_duplicate_type(ns.last().name.0@))
        } else {
            seq![]
        }
    }
}

pub open spec fn const_scope_errors(mn: Seq<char>, base: Set<Seq<char>>, cs: Seq<ConstDef>) -> Seq<ErrorText>
    decreases cs.len(),
{
    if cs.len() == 0 {
        seq![]
    } else {
        let seen = base + const_def_names(cs.drop_last()).to_set();
        const_scope_errors(mn, base, cs.drop_last()) + if seen.contains(cs.last().name.0@) {
            one(mn, msg_duplicate_name(cs.last().name.0@))
        } else {
            seq![]
        }
    }
}

pub open spec fn trait_scope_errors(mn: Seq<char>, ts: Seq<TraitDeclDef>) -> Seq<ErrorText>
    decreases ts.len(),
{
    if ts.len() == 0 {
        seq![]
    } else {
        let seen = trait_decl_names(ts.drop_last()).to_set();
        trait_scope_errors(mn, ts.drop_last()) + if seen.contains(ts.last().name.0@) {
            one(mn, msg_duplicate_trait(ts.last().name.0@))
        } else {
            seq![]
        }
    }
}

/// Each generic parameter of a definition must differ from those before it.
pub open spec fn generic_uniqueness_errors(mn: Seq<char>, owner: Seq<char>, ps: Seq<GenericParamDef>) -> Seq<ErrorText>
    decreases ps.len(),
{
    if ps.len() == 0 {
        seq![]
    } else {
        let seen = param_names(ps.drop_last()).to_set();
        generic_uniqueness_errors(mn, owner, ps.drop_last()) + if seen.contains(ps.last().name.0@) {
            one(mn, msg_duplicate_generic(ps.last().name.0@, owner))
        } else {
            seq![]
        }
    }
}

pub open spec fn enum_generic_errors(mn: Seq<char>, es: Seq<EnumDef>) -> Seq<ErrorText>
    decreases es.len(),
{
    if es.len() == 0 {
        seq![]
    } else {
        enum_generic_errors(mn, es.drop_last()) + generic_uniqueness_errors(mn, es.last().name.0@, es.last().generic_params@)
    }
}

pub open spec fn struct_generic_errors(mn: Seq<char>, ss: Seq<StructDef>) -> Seq<ErrorText>
    decreases ss.len(),
{
    if ss.len() == 0 {
        seq![]
    } else {
        struct_generic_errors(mn, ss.drop_last()) + generic_uniqueness_errors(mn, ss.last().name.0@, ss.last().generic_params@)
    }
}

pub open spec fn newtype_generic_errors(mn: Seq<char>, ns: Seq<NewtypeDef>) -> Seq<ErrorText>
    decreases ns.len(),
{
    if ns.len() == 0 {
        seq![]
    } else {
        newtype_generic_errors(mn, ns.drop_last()) + generic_uniqueness_errors(mn, ns.last().name.0@, ns.last().generic_params@)
    }
}

/// The names at a module's top level that share one namespace: its
/// enums, structs, newtypes and consts.
pub open spec fn top_level_names(m: ModuleDef) -> Set<Seq<char>> {
    enum_def_names(m.enums@).to_set() + struct_def_names(m.structs@).to_set() + newtype_def_names(m.newtypes@).to_set()
        + const_def_names(m.consts@).to_set()
}

pub open spec fn sig_generic_errors(mn: Seq<char>, ss: Seq<MethodSig>) -> Seq<ErrorText>
    decreases ss.len(),
{
    if ss.len() == 0 {
        seq![]
    } else {
        sig_generic_errors(mn, ss.drop_last()) + generic_uniqueness_errors(mn, ss.last().name.0@, ss.last().generic_params@)
    }
}

/// Each trait declaration's generic parameters, and each of its
/// signatures', must be unique.
pub open spec fn trait_generic_errors(mn: Seq<char>, ts: Seq<TraitDeclDef>) -> Seq<ErrorText>
    decreases ts.len(),
{
    if ts.len() == 0 {
        seq![]
    } else {
        trait_generic_errors(mn, ts.drop_last()) + generic_uniqueness_errors(mn, ts.last().name.0@, ts.last().generic_params@)
            + sig_generic_errors(mn, ts.last().signatures@)
    }
}

pub open spec fn method_generic_errors(mn: Seq<char>, ds: Seq<MethodDef>) -> Seq<ErrorText>
    decreases ds.len(),
{
    if ds.len() == 0 {
        seq![]
    } else {
        method_generic_errors(mn, ds.drop_last()) + generic_uniqueness_errors(mn, ds.last().name.0@, ds.last().generic_params@)
    }
}

/// Each trait implementation's generic parameters, and each of its
/// methods', must be unique.
pub open spec fn impl_generic_errors(mn: Seq<char>, ts: Seq<TraitImplDef>) -> Seq<ErrorText>
    decreases ts.len(),
{
    if ts.len() == 0 {
        seq![]
    } else {
        impl_generic_errors(mn, ts.drop_last()) + generic_uniqueness_errors(mn, ts.last().trait_name.0@, ts.last().generic_params@)
            + method_generic_errors(mn, ts.last().methods@)
    }
}

/// The names of the module's top-level enums, structs and newtypes that
/// are private.
pub open spec fn private_type_names(m: ModuleDef) -> Set<Seq<char>> {
    Set::new(|n: Seq<char>|
        (exists|j: int| 0 <= j < m.enums@.len() && #[trigger] m.enums@[j].visibility == Visibility::Private && m.enums@[j].name.0@ == n)
        || (exists|j: int| 0 <= j < m.structs@.len() && #[trigger] m.structs@[j].visibility == Visibility::Private && m.structs@[j].name.0@ == n)
        || (exists|j: int| 0 <= j < m.newtypes@.len() && #[trigger] m.newtypes@[j].visibility == Visibility::Private && m.newtypes@[j].name.0@ == n))
}

/// The type names a type expression refers to, in order and at any depth:
/// named types and the constructors of applications and instance
/// references.
pub open spec fn type_ref_names(e: TypeExpr) -> Seq<Seq<char>>
    decreases e,
{
    match e {
        TypeExpr::Named(n) => seq![n.0@],
        TypeExpr::Application(app) => seq![app.constructor.0@] + type_ref_names_all(app.args@),
        TypeExpr::InstanceRef(app) => seq![app.constructor.0@] + type_ref_names_all(app.args@),
        TypeExpr::Ref { inner } => type_ref_names(*inner),
        TypeExpr::MutRef { inner } => type_ref_names(*inner),
        TypeExpr::Boxed(inner) => type_ref_names(*inner),
        TypeExpr::Tuple { elements } => type_ref_names_all(elements@),
        TypeExpr::Array { element, .. } => type_ref_names(*element),
        TypeExpr::Slice { element } => type_ref_names(*element),
        TypeExpr::FnPtr { params, return_ } => type_ref_names_all(params@) + type_ref_names(*return_),
        TypeExpr::DynTrait { bounds } => bounds_ref_names(bounds@),
        TypeExpr::ImplTrait { bounds } => bounds_ref_names(bounds@),
        TypeExpr::QualifiedPath { base, .. } => type_ref_names(*base),
        _ => seq![],
    }
}

pub open spec fn type_ref_names_all(es: Seq<TypeExpr>) -> Seq<Seq<char>>
    decreases es,
{
    if es.len() == 0 {
        seq![]
    } else {
        type_ref_names_all(es.drop_last()) + type_ref_names(es.last())
    }
}

pub open spec fn bound_ref_names(b: TraitBound) -> Seq<Seq<char>>
    decreases b,
{
    type_ref_names_all(b.args@)
}

pub open spec fn bounds_ref_names(bs: Seq<TraitBound>) -> Seq<Seq<char>>
    decreases bs,
{
    if bs.len() == 0 {
        seq![]
    } else {
        bounds_ref_names(bs.drop_last()) + bound_ref_names(bs.last())
    }
}

/// The type names a method's parameters and return type refer to.
pub open spec fn params_ref_names(ps: Seq<Param>) -> Seq<Seq<char>>
    decreases ps.len(),
{
    if ps.len() == 0 {
        seq![]
    } else {
        params_ref_names(ps.drop_last()) + match ps.last() {
            Param::BorrowNamed { typ, .. } => type_ref_names(typ),
            Param::MutBorrowNamed { typ, .. } => type_ref_names(typ),
            Param::Named { typ, .. } => type_ref_names(typ),
            _ => seq![],
        }
    }
}

pub open spec fn signature_ref_names(sig: MethodSig) -> Seq<Seq<char>> {
    params_ref_names(sig.params@) + match sig.return_type {
        Some(t) => type_ref_names(t),
        None => seq![],
    }
}

/// One problem per private name among the names a public struct's field
/// refers to.
pub open spec fn private_field_errors(mn: Seq<char>, private: Set<Seq<char>>, owner: Seq<char>, names: Seq<Seq<char>>) -> Seq<ErrorText>
    decreases names.len(),
{
    if names.len() == 0 {
        seq![]
    } else {
        private_field_errors(mn, private, owner, names.drop_last()) + if private.contains(names.last()) {
            one(mn, msg_private_in_field(owner, names.last()))
        } else {
            seq![]
        }
    }
}

pub open spec fn field_visibility_errors(mn: Seq<char>, private: Set<Seq<char>>, owner: Seq<char>, cs: Seq<StructChild>) -> Seq<ErrorText>
    decreases cs.len(),
{
    if cs.len() == 0 {
        seq![]
    } else {
        field_visibility_errors(mn, private, owner, cs.drop_last()) + match cs.last() {
            StructChild::TypedField { typ, .. } => private_field_errors(mn, private, owner, type_ref_names(typ)),
            _ => seq![],
        }
    }
}

/// A public struct's fields must not name a private type.
pub open spec fn struct_visibility_errors(mn: Seq<char>, private: Set<Seq<char>>, ss: Seq<StructDef>) -> Seq<ErrorText>
    decreases ss.len(),
{
    if ss.len() == 0 {
        seq![]
    } else {
        struct_visibility_errors(mn, private, ss.drop_last()) + if ss.last().visibility == Visibility::Public {
            field_visibility_errors(mn, private, ss.last().name.0@, ss.last().children@)
        } else {
            seq![]
        }
    }
}

pub open spec fn private_signature_errors(
    mn: Seq<char>,
    private: Set<Seq<char>>,
    owner: Seq<char>,
    method: Seq<char>,
    names: Seq<Seq<char>>,
) -> Seq<ErrorText>
    decreases names.len(),
{
    if names.len() == 0 {
        seq![]
    } else {
        private_signature_errors(mn, private, owner, method, names.drop_last()) + if private.contains(names.last()) {
            one(mn, msg_private_in_signature(owner, method, names.last()))
        } else {
            seq![]
        }
    }
}

pub open spec fn signatures_visibility_errors(mn: Seq<char>, private: Set<Seq<char>>, owner: Seq<char>, ss: Seq<MethodSig>) -> Seq<ErrorText>
    decreases ss.len(),
{
    if ss.len() == 0 {
        seq![]
    } else {
        signatures_visibility_errors(mn, private, owner, ss.drop_last()) + private_signature_errors(
            mn,
            private,
            owner,
            ss.last().name.0@,
            signature_ref_names(ss.last()),
        )
    }
}

/// A public trait's method signatures must not name a private type.
pub open spec fn trait_visibility_errors(mn: Seq<char>, private: Set<Seq<char>>, ts: Seq<TraitDeclDef>) -> Seq<ErrorText>
    decreases ts.len(),
{
    if ts.len() == 0 {
        seq![]
    } else {
        trait_visibility_errors(mn, private, ts.drop_last()) + if ts.last().visibility == Visibility::Public {
            signatures_visibility_errors(mn, private, ts.last().name.0@, ts.last().signatures@)
        } else {
            seq![]
        }
    }
}

/// An exported type must not be private.
pub open spec fn export_visibility_errors(mn: Seq<char>, private: Set<Seq<char>>, es: Seq<ExportItem>) -> Seq<ErrorText>
    decreases es.len(),
{
    if es.len() == 0 {
        seq![]
    } else {
        export_visibility_errors(mn, private, es.drop_last()) + match es.last() {
            ExportItem::Type_(n) => if private.contains(n.0@) {
                one(mn, msg_exports_private(n.0@))
            } else {
                seq![]
            },
            ExportItem::Trait(_) => seq![],
        }
    }
}

/// The scope problems of one module: type names (enums, structs,
/// newtypes) and consts share one namespace, traits another; nested types
/// must not collide with top-level names; generic parameters are unique in
/// every definition, trait, implementation and method; and private types
/// stay out of public interfaces and exports.
pub open spec fn module_scope_errors(m: ModuleDef) -> Seq<ErrorText> {
    let mn = m.name.0@;
    let en = enum_def_names(m.enums@).to_set();
    let sn = en + struct_def_names(m.structs@).to_set();
    let nn = sn + newtype_def_names(m.newtypes@).to_set();
    let top = top_level_names(m);
    let private = private_type_names(m);
    enum_scope_errors(mn, top, m.enums@) + struct_scope_errors(mn, en, top, m.structs@) + newtype_scope_errors(mn, sn, m.newtypes@)
        + const_scope_errors(mn, nn, m.consts@) + trait_scope_errors(mn, m.trait_decls@)
        + enum_generic_errors(mn, m.enums@) + struct_generic_errors(mn, m.structs@) + newtype_generic_errors(mn, m.newtypes@)
        + trait_generic_errors(mn, m.trait_decls@) + impl_generic_errors(mn, m.trait_impls@)
        + export_visibility_errors(mn, private, m.exports@) + struct_visibility_errors(mn, private, m.structs@)
        + trait_visibility_errors(mn, private, m.trait_decls@)
}

pub open spec fn scope_errors(ms: Seq<ModuleDef>, n: nat) -> Seq<ErrorText>
    decreases n,
{
    if n == 0 || n > ms.len() {
        seq![]
    } else {
        scope_errors(ms, (n - 1) as nat) + module_scope_errors(ms[n - 1])
    }
}

// ---------------------------------------------------------------------------
// Tier 5: const values suit their types.

pub open spec fn is_int_type(t: Seq<char>) -> bool {
    t == "U8"@ || t == "U16"@ || t == "U32"@ || t == "U64"@ || t == "I8"@ || t == "I16"@ || t == "I32"@
        || t == "I64"@
}

/// Whether a literal of this kind may be the value of a const of type `t`.
pub open spec fn literal_fits_type(v: LiteralValue, t: Seq<char>) -> bool {
    match v {
        LiteralValue::Int(_) => is_int_type(t),
        LiteralValue::Float(_) => t == "F32"@ || t == "F64"@,
        LiteralValue::Str(_) => t == "String"@,
        LiteralValue::Bool(_) => t == "Bool"@,
        LiteralValue::Char(_) => t == "Char"@,
    }
}

/// Whether an integer lies in the range of the integer type `t` (any
/// integer does, for a type that is not an integer type).
pub open spec fn int_in_range(v: int, t: Seq<char>) -> bool {
    if t == "U8"@ {
        0 <= v <= 255
    } else if t == "U16"@ {
        0 <= v <= 65535
    } else if t == "U32"@ {
        0 <= v <= 4294967295
    } else if t == "U64"@ {
        0 <= v
    } else if t == "I8"@ {
        -128 <= v <= 127
    } else if t == "I16"@ {
        -32768 <= v <= 32767
    } else if t == "I32"@ {
        -2147483648 <= v <= 2147483647
    } else {
        true
    }
}

pub open spec fn const_errors(mn: Seq<char>, c: ConstDef) -> Seq<ErrorText> {
    match c.typ {
        TypeExpr::Named(t) => (if !literal_fits_type(c.value, t.0@) {
            one(mn, msg_incompatible(c.name.0@, t.0@, c.value))
        } else {
            seq![]
        }) + match c.value {
            LiteralValue::Int(v) => if !int_in_range(v as int, t.0@) {
                one(mn, msg_out_of_range(c.name.0@, v as int, t.0@))
            } else {
                seq![]
            },
            _ => seq![],
        },
        _ => seq![],
    }
}

pub open spec fn consts_literal_errors(mn: Seq<char>, cs: Seq<ConstDef>) -> Seq<ErrorText>
    decreases cs.len(),
{
    if cs.len() == 0 {
        seq![]
    } else {
        consts_literal_errors(mn, cs.drop_last()) + const_errors(mn, cs.last())
    }
}

pub open spec fn literal_errors(ms: Seq<ModuleDef>, n: nat) -> Seq<ErrorText>
    decreases n,
{
    if n == 0 || n > ms.len() {
        seq![]
    } else {
        literal_errors(ms, (n - 1) as nat) + consts_literal_errors(ms[n - 1].name.0@, ms[n - 1].consts@)
    }
}

/// Every problem in a program, tier by tier: module linking, the type
/// graph, trait structure, scopes, literals. Each tier runs whatever the
/// earlier ones found.
pub open spec fn verify_spec(ms: Seq<ModuleDef>, ix: IndexView) -> Seq<ErrorText> {
    import_tier_errors(ms, ix) + type_graph_errors(ms, ix, ms.len()) + structure_errors(ms, ix, ms.len())
        + scope_errors(ms, ms.len()) + literal_errors(ms, ms.len())
}

/// The state of one verification run over a program and its index.
pub struct Verifier<'a> {
    modules: &'a [ModuleDef],
    index: &'a Index,
    errors: Vec<VerifyError>,
    /// Generic params currently in scope
    generic_scope: Vec<String>,
}

impl<'a> Verifier<'a> {
    pub closed spec fn texts(&self) -> Seq<ErrorText> {
        error_texts(self.errors@)
    }

    pub closed spec fn scope(&self) -> Seq<Seq<char>> {
        Seq::new(self.generic_scope@.len(), |i: int| self.generic_scope@[i]@)
    }

    pub closed spec fn ix(&self) -> IndexView {
        self.index@
    }

    pub closed spec fn program(&self) -> Seq<ModuleDef> {
        self.modules@
    }

    /// The run still reads the same program and index, with the same
    /// generic parameters in scope.
    pub closed spec fn keeps(&self, other: &Self) -> bool {
        &&& self.modules@ == other.modules@
        &&& self.index@ == other.index@
        &&& self.scope() == other.scope()
    }

    fn err(&mut self, module: &str, msg: String)
        ensures
            final(self).keeps(old(self)),
            final(self).texts() == old(self).texts().push(ErrorText { module: module@, message: msg@ }),
    {
        let ghost m = msg@;
        self.errors.push(VerifyError { module: module.to_owned(), message: msg });
        assert(self.texts() =~= old(self).texts().push(ErrorText { module: module@, message: m }));
    }

    fn scope_has(&self, name: &str) -> (r: bool)
        ensures
            r == self.scope().contains(name@),
    {
        let n = self.generic_scope.len();
        for i in 0..n
            invariant
                n == self.scope().len(),
                forall|j: int| 0 <= j < i ==> self.scope()[j] != name@,
        {
            if crate::text::same_text(self.generic_scope[i].as_str(), name) {
                assert(self.scope()[i as int] == name@);
                return true;
            }
        }
        false
    }

    /// Brings the given generic parameters into scope, after those already
    /// there.
    fn enter_generics(&mut self, params: &Vec<GenericParamDef>)
        ensures
            final(self).modules@ == old(self).modules@,
            final(self).index@ == old(self).index@,
            final(self).texts() == old(self).texts(),
            final(self).scope() == old(self).scope() + param_names(params@),
            final(self).generic_scope@.len() == old(self).generic_scope@.len() + params@.len(),
    {
        let n = params.len();
        for i in 0..n
            invariant
                n == params@.len(),
                self.modules@ == old(self).modules@,
                self.index@ == old(self).index@,
                self.texts() == old(self).texts(),
                self.scope() == old(self).scope() + param_names(params@).take(i as int),
                self.generic_scope@.len() == old(self).generic_scope@.len() + i,
        {
            let ghost before = self.scope();
            self.generic_scope.push(params[i].name.0.clone());
            assert(self.scope() =~= before.push(params@[i as int].name.0@));
            assert(self.scope() =~= old(self).scope() + param_names(params@).take(i + 1));
        }
        assert(param_names(params@).take(n as int) =~= param_names(params@));
    }

    /// Puts the scope back as it was with `len` parameters.
    fn leave_generics(&mut self, len: usize, Ghost(saved): Ghost<Seq<Seq<char>>>)
        requires
            len <= old(self).generic_scope@.len(),
            saved.len() == len,
            old(self).scope().take(len as int) == saved,
        ensures
            final(self).modules@ == old(self).modules@,
            final(self).index@ == old(self).index@,
            final(self).texts() == old(self).texts(),
            final(self).scope() == saved,
            final(self).generic_scope@.len() == len,
    {
        self.generic_scope.truncate(len);
        assert(self.scope() =~= old(self).scope().take(len as int));
    }

    fn verify_type_expr(&mut self, mi: usize, mod_name: &str, expr: &TypeExpr)
        ensures
            final(self).keeps(old(self)),
            final(self).texts() == old(self).texts() + type_expr_errors(
                old(self).ix(),
                mi as int,
                mod_name@,
                old(self).scope(),
                *expr,
            ),
        decreases expr,
    {
        let ghost ix = self.ix();
        let ghost sc = self.scope();
        match expr {
            TypeExpr::Named(name) => {
                if !self.index.type_exists(mi, name.0.as_str()) && !self.scope_has(name.0.as_str()) {
                    self.err(mod_name, write_unknown_type(name.0.as_str()));
                }
            },
            TypeExpr::Application(app) => {
                let name = app.constructor.0.as_str();
                if !self.index.type_exists(mi, name) && !self.scope_has(name) {
                    self.err(mod_name, write_unknown_constructor(name));
                } else if let Some(expected) = self.index.type_arity(mi, name) {
                    if app.args.len() != expected {
                        self.err(mod_name, write_arity(name, expected, app.args.len()));
                    }
                }
                self.verify_type_exprs(mi, mod_name, &app.args);
            },
            TypeExpr::Param(name) => {
                if !self.scope_has(name.0.as_str()) {
                    self.err(mod_name, write_unknown_param(name.0.as_str()));
                }
            },
            TypeExpr::BoundedParam { bounds } => {
                self.verify_bound_names(mi, mod_name, bounds);
            },
            TypeExpr::Ref { inner } => {
                self.verify_type_expr(mi, mod_name, inner);
            },
            TypeExpr::MutRef { inner } => {
                self.verify_type_expr(mi, mod_name, inner);
            },
            TypeExpr::Boxed(inner) => {
                self.verify_type_expr(mi, mod_name, inner);
            },
            TypeExpr::Tuple { elements } => {
                self.verify_type_exprs(mi, mod_name, elements);
            },
            TypeExpr::Array { element, .. } => {
                self.verify_type_expr(mi, mod_name, element);
            },
            TypeExpr::Slice { element } => {
                self.verify_type_expr(mi, mod_name, element);
            },
            TypeExpr::FnPtr { params, return_ } => {
                self.verify_type_exprs(mi, mod_name, params);
                self.verify_type_expr(mi, mod_name, return_);
            },
            TypeExpr::DynTrait { bounds } => {
                self.verify_trait_bounds(mi, mod_name, bounds);
            },
            TypeExpr::ImplTrait { bounds } => {
                self.verify_trait_bounds(mi, mod_name, bounds);
            },
            TypeExpr::InstanceRef(app) => {
                if !self.index.type_exists(mi, app.constructor.0.as_str()) {
                    self.err(mod_name, write_unknown_instance(app.constructor.0.as_str()));
                }
                self.verify_type_exprs(mi, mod_name, &app.args);
            },
            TypeExpr::QualifiedPath { base, .. } => {
                self.verify_type_expr(mi, mod_name, base);
            },
            TypeExpr::SelfType | TypeExpr::Unit | TypeExpr::Never => {},
        }
        assert(self.texts() =~= old(self).texts() + type_expr_errors(ix, mi as int, mod_name@, sc, *expr));
    }

    fn verify_type_exprs(&mut self, mi: usize, mod_name: &str, es: &Vec<TypeExpr>)
        ensures
            final(self).keeps(old(self)),
            final(self).texts() == old(self).texts() + type_exprs_errors(
                old(self).ix(),
                mi as int,
                mod_name@,
                old(self).scope(),
                es@,
            ),
        decreases es@,
    {
        let ghost ix = self.ix();
        let ghost sc = self.scope();
        let n = es.len();
        for i in 0..n
            invariant
                n == es@.len(),
                self.keeps(old(self)),
                ix == old(self).ix(),
                sc == old(self).scope(),
                self.texts() == old(self).texts() + type_exprs_errors(ix, mi as int, mod_name@, sc, es@.take(i as int)),
        {
            assert(es@.take(i + 1).drop_last() =~= es@.take(i as int));
            self.verify_type_expr(mi, mod_name, &es[i]);
            assert(self.texts() =~= old(self).texts() + type_exprs_errors(ix, mi as int, mod_name@, sc, es@.take(i + 1)));
        }
        assert(es@.take(n as int) =~= es@);
    }

    fn verify_trait_bound(&mut self, mi: usize, mod_name: &str, bound: &TraitBound)
        ensures
            final(self).keeps(old(self)),
            final(self).texts() == old(self).texts() + trait_bound_errors(
                old(self).ix(),
                mi as int,
                mod_name@,
                old(self).scope(),
                *bound,
            ),
        decreases bound,
    {
        if !self.index.trait_exists(mi, bound.trait_name.0.as_str()) {
            self.err(mod_name, write_unknown_trait(bound.trait_name.0.as_str()));
        }
        let ghost mid = self.texts();
        self.verify_type_exprs(mi, mod_name, &bound.args);
        assert(self.texts() =~= old(self).texts() + trait_bound_errors(old(self).ix(), mi as int, mod_name@, old(self).scope(), *bound));
    }

    fn verify_trait_bounds(&mut self, mi: usize, mod_name: &str, bs: &Vec<TraitBound>)
        ensures
            final(self).keeps(old(self)),
            final(self).texts() == old(self).texts() + trait_bounds_errors(
                old(self).ix(),
                mi as int,
                mod_name@,
                old(self).scope(),
                bs@,
            ),
        decreases bs@,
    {
        let ghost ix = self.ix();
        let ghost sc = self.scope();
        let n = bs.len();
        for i in 0..n
            invariant
                n == bs@.len(),
                self.keeps(old(self)),
                ix == old(self).ix(),
                sc == old(self).scope(),
                self.texts() == old(self).texts() + trait_bounds_errors(ix, mi as int, mod_name@, sc, bs@.take(i as int)),
        {
            assert(bs@.take(i + 1).drop_last() =~= bs@.take(i as int));
            self.verify_trait_bound(mi, mod_name, &bs[i]);
            assert(self.texts() =~= old(self).texts() + trait_bounds_errors(ix, mi as int, mod_name@, sc, bs@.take(i + 1)));
        }
        assert(bs@.take(n as int) =~= bs@);
    }

    fn verify_bound_names(&mut self, mi: usize, mod_name: &str, bs: &Vec<TraitName>)
        ensures
            final(self).keeps(old(self)),
            final(self).texts() == old(self).texts() + bound_name_errors(old(self).ix(), mi as int, mod_name@, bs@),
    {
        let ghost ix = self.ix();
        let n = bs.len();
        for i in 0..n
            invariant
                n == bs@.len(),
                self.keeps(old(self)),
                ix == old(self).ix(),
                self.texts() == old(self).texts() + bound_name_errors(ix, mi as int, mod_name@, bs@.take(i as int)),
        {
            assert(bs@.take(i + 1).drop_last() =~= bs@.take(i as int));
            let b = bs[i].0.as_str();
            if !self.index.trait_exists(mi, b) && !self.index.type_exists(mi, b) {
                self.err(mod_name, write_unknown_bound(b));
            }
            assert(self.texts() =~= old(self).texts() + bound_name_errors(ix, mi as int, mod_name@, bs@.take(i + 1)));
        }
        assert(bs@.take(n as int) =~= bs@);
    }
}

impl<'a> Verifier<'a> {
    fn verify_fields(&mut self, mi: usize, mod_name: &str, fs: &Vec<TypedField>)
        ensures
            final(self).keeps(old(self)),
            final(self).texts() == old(self).texts() + field_errors(old(self).ix(), mi as int, mod_name@, old(self).scope(), fs@),
    {
        let ghost ix = self.ix();
        let ghost sc = self.scope();
        let n = fs.len();
        for i in 0..n
            invariant
                n == fs@.len(),
                self.keeps(old(self)),
                ix == old(self).ix(),
                sc == old(self).scope(),
                self.texts() == old(self).texts() + field_errors(ix, mi as int, mod_name@, sc, fs@.take(i as int)),
        {
            assert(fs@.take(i + 1).drop_last() =~= fs@.take(i as int));
            self.verify_type_expr(mi, mod_name, &fs[i].typ);
            assert(self.texts() =~= old(self).texts() + field_errors(ix, mi as int, mod_name@, sc, fs@.take(i + 1)));
        }
        assert(fs@.take(n as int) =~= fs@);
    }

    fn verify_enum_children(&mut self, mi: usize, mod_name: &str, children: &Vec<EnumChild>)
        ensures
            final(self).keeps(old(self)),
            final(self).texts() == old(self).texts() + enum_children_errors(
                old(self).ix(),
                mi as int,
                mod_name@,
                old(self).scope(),
                children@,
            ),
        decreases children@,
    {
        let ghost ix = self.ix();
        let ghost sc = self.scope();
        let n = children.len();
        for i in 0..n
            invariant
                n == children@.len(),
                self.keeps(old(self)),
                ix == old(self).ix(),
                sc == old(self).scope(),
                self.texts() == old(self).texts() + enum_children_errors(ix, mi as int, mod_name@, sc, children@.take(i as int)),
        {
            assert(children@.take(i + 1).drop_last() =~= children@.take(i as int));
            let ghost before = self.texts();
            match &children[i] {
                EnumChild::Variant { .. } => {},
                EnumChild::DataVariant { payload, .. } => {
                    self.verify_type_expr(mi, mod_name, payload);
                },
                EnumChild::StructVariant { fields, .. } => {
                    self.verify_fields(mi, mod_name, fields);
                },
                EnumChild::NestedEnum(e) => {
                    let saved = self.generic_scope.len();
                    assert(self.scope().len() == self.generic_scope@.len());
                    self.enter_generics(&e.generic_params);
                    self.verify_enum_children(mi, mod_name, &e.children);
                    self.verify_generic_bounds(mi, mod_name, &e.generic_params);
                    assert((sc + param_names(e.generic_params@)).take(saved as int) =~= sc);
                    assert(self.scope().len() == self.generic_scope@.len());
                    self.leave_generics(saved, Ghost(sc));
                },
                EnumChild::NestedStruct(st) => {
                    let saved = self.generic_scope.len();
                    assert(self.scope().len() == self.generic_scope@.len());
                    self.enter_generics(&st.generic_params);
                    self.verify_struct_children(mi, mod_name, &st.children);
                    self.verify_generic_bounds(mi, mod_name, &st.generic_params);
                    assert((sc + param_names(st.generic_params@)).take(saved as int) =~= sc);
                    assert(self.scope().len() == self.generic_scope@.len());
                    self.leave_generics(saved, Ghost(sc));
                },
            }
            assert(self.texts() =~= old(self).texts() + enum_children_errors(ix, mi as int, mod_name@, sc, children@.take(i + 1)));
        }
        assert(children@.take(n as int) =~= children@);
    }

    fn verify_struct_children(&mut self, mi: usize, mod_name: &str, children: &Vec<StructChild>)
        ensures
            final(self).keeps(old(self)),
            final(self).texts() == old(self).texts() + struct_children_errors(
                old(self).ix(),
                mi as int,
                mod_name@,
                old(self).scope(),
                children@,
            ),
        decreases children@,
    {
        let ghost ix = self.ix();
        let ghost sc = self.scope();
        let n = children.len();
        for i in 0..n
            invariant
                n == children@.len(),
                self.keeps(old(self)),
                ix == old(self).ix(),
                sc == old(self).scope(),
                self.texts() == old(self).texts() + struct_children_errors(ix, mi as int, mod_name@, sc, children@.take(i as int)),
        {
            assert(children@.take(i + 1).drop_last() =~= children@.take(i as int));
            match &children[i] {
                StructChild::TypedField { typ, .. } => {
                    self.verify_type_expr(mi, mod_name, typ);
                },
                StructChild::SelfTypedField { name, .. } => {
                    if !self.index.type_exists(mi, name.0.as_str()) {
                        self.err(mod_name, write_self_typed_field(name.0.as_str()));
                    }
                },
                StructChild::NestedEnum(e) => {
                    let saved = self.generic_scope.len();
                    assert(self.scope().len() == self.generic_scope@.len());
                    self.enter_generics(&e.generic_params);
                    self.verify_enum_children(mi, mod_name, &e.children);
                    self.verify_generic_bounds(mi, mod_name, &e.generic_params);
                    assert((sc + param_names(e.generic_params@)).take(saved as int) =~= sc);
                    assert(self.scope().len() == self.generic_scope@.len());
                    self.leave_generics(saved, Ghost(sc));
                },
                StructChild::NestedStruct(st) => {
                    let saved = self.generic_scope.len();
                    assert(self.scope().len() == self.generic_scope@.len());
                    self.enter_generics(&st.generic_params);
                    self.verify_struct_children(mi, mod_name, &st.children);
                    self.verify_generic_bounds(mi, mod_name, &st.generic_params);
                    assert((sc + param_names(st.generic_params@)).take(saved as int) =~= sc);
                    assert(self.scope().len() == self.generic_scope@.len());
                    self.leave_generics(saved, Ghost(sc));
                },
            }
            assert(self.texts() =~= old(self).texts() + struct_children_errors(ix, mi as int, mod_name@, sc, children@.take(i + 1)));
        }
        assert(children@.take(n as int) =~= children@);
    }

    fn verify_generic_bounds(&mut self, mi: usize, mod_name: &str, params: &Vec<GenericParamDef>)
        ensures
            final(self).keeps(old(self)),
            final(self).texts() == old(self).texts() + generic_bounds_errors(
                old(self).ix(),
                mi as int,
                mod_name@,
                old(self).scope(),
                params@,
            ),
    {
        let ghost ix = self.ix();
        let ghost sc = self.scope();
        let n = params.len();
        for i in 0..n
            invariant
                n == params@.len(),
                self.keeps(old(self)),
                ix == old(self).ix(),
                sc == old(self).scope(),
                self.texts() == old(self).texts() + generic_bounds_errors(ix, mi as int, mod_name@, sc, params@.take(i as int)),
        {
            assert(params@.take(i + 1).drop_last() =~= params@.take(i as int));
            let p = &params[i];
            self.verify_trait_bounds(mi, mod_name, &p.bounds);
            if let Some(default) = &p.default {
                self.verify_type_expr(mi, mod_name, default);
            }
            assert(self.texts() =~= old(self).texts() + generic_bounds_errors(ix, mi as int, mod_name@, sc, params@.take(i + 1)));
        }
        assert(params@.take(n as int) =~= params@);
    }

    fn verify_param_type(&mut self, mi: usize, mod_name: &str, param: &Param)
        ensures
            final(self).keeps(old(self)),
            final(self).texts() == old(self).texts() + param_errors(old(self).ix(), mi as int, mod_name@, old(self).scope(), *param),
    {
        match param {
            Param::BorrowNamed { typ, .. } | Param::MutBorrowNamed { typ, .. } | Param::Named { typ, .. } => {
                self.verify_type_expr(mi, mod_name, typ);
            },
            Param::BorrowSelf | Param::MutBorrowSelf | Param::OwnedSelf | Param::Bare { .. } => {
                assert(self.texts() =~= old(self).texts() + param_errors(old(self).ix(), mi as int, mod_name@, old(self).scope(), *param));
            },
        }
    }

    fn verify_params(&mut self, mi: usize, mod_name: &str, ps: &Vec<Param>)
        ensures
            final(self).keeps(old(self)),
            final(self).texts() == old(self).texts() + params_errors(old(self).ix(), mi as int, mod_name@, old(self).scope(), ps@),
    {
        let ghost ix = self.ix();
        let ghost sc = self.scope();
        let n = ps.len();
        for i in 0..n
            invariant
                n == ps@.len(),
                self.keeps(old(self)),
                ix == old(self).ix(),
                sc == old(self).scope(),
                self.texts() == old(self).texts() + params_errors(ix, mi as int, mod_name@, sc, ps@.take(i as int)),
        {
            assert(ps@.take(i + 1).drop_last() =~= ps@.take(i as int));
            self.verify_param_type(mi, mod_name, &ps[i]);
            assert(self.texts() =~= old(self).texts() + params_errors(ix, mi as int, mod_name@, sc, ps@.take(i + 1)));
        }
        assert(ps@.take(n as int) =~= ps@);
    }

    fn verify_opt_type(&mut self, mi: usize, mod_name: &str, t: &Option<TypeExpr>)
        ensures
            final(self).keeps(old(self)),
            final(self).texts() == old(self).texts() + opt_type_errors(old(self).ix(), mi as int, mod_name@, old(self).scope(), *t),
    {
        if let Some(rt) = t {
            self.verify_type_expr(mi, mod_name, rt);
        } else {
            assert(self.texts() =~= old(self).texts() + opt_type_errors(old(self).ix(), mi as int, mod_name@, old(self).scope(), *t));
        }
    }

    fn verify_method_types(
        &mut self,
        mi: usize,
        mod_name: &str,
        method_generics: &Vec<GenericParamDef>,
        params: &Vec<Param>,
        return_type: &Option<TypeExpr>,
    )
        ensures
            final(self).keeps(old(self)),
            final(self).texts() == old(self).texts() + method_types_errors(
                old(self).ix(),
                mi as int,
                mod_name@,
                old(self).scope(),
                method_generics@,
                params@,
                *return_type,
            ),
    {
        let ghost sc = self.scope();
        let saved = self.generic_scope.len();
        assert(self.scope().len() == self.generic_scope@.len());
        self.enter_generics(method_generics);
        self.verify_params(mi, mod_name, params);
        self.verify_opt_type(mi, mod_name, return_type);
        self.verify_generic_bounds(mi, mod_name, method_generics);
        assert(self.scope().len() == self.generic_scope@.len());
        assert((sc + param_names(method_generics@)).take(saved as int) =~= sc);
        assert(self.scope().len() == self.generic_scope@.len());
        self.leave_generics(saved, Ghost(sc));
        assert(self.texts() =~= old(self).texts() + method_types_errors(old(self).ix(), mi as int, mod_name@, sc,
            method_generics@, params@, *return_type));
    }
}

impl<'a> Verifier<'a> {
    fn verify_enum_defs(&mut self, mi: usize, mod_name: &str, ds: &Vec<EnumDef>)
        requires
            old(self).scope() == Seq::<Seq<char>>::empty(),
        ensures
            final(self).keeps(old(self)),
            final(self).texts() == old(self).texts() + enum_defs_errors(old(self).ix(), mi as int, mod_name@, ds@),
    {
        let ghost ix = self.ix();
        let ghost sc = self.scope();
        let n = ds.len();
        for i in 0..n
            invariant
                n == ds@.len(),
                self.keeps(old(self)),
                ix == old(self).ix(),
                self.scope() == Seq::<Seq<char>>::empty(),
                self.texts() == old(self).texts() + enum_defs_errors(ix, mi as int, mod_name@, ds@.take(i as int)),
        {
            assert(ds@.take(i + 1).drop_last() =~= ds@.take(i as int));
            let d = &ds[i];
            let saved = self.generic_scope.len();
            self.enter_generics(&d.generic_params);
            self.verify_enum_children(mi, mod_name, &d.children);
            self.verify_generic_bounds(mi, mod_name, &d.generic_params);
            assert(self.scope().len() == self.generic_scope@.len());
            assert((Seq::<Seq<char>>::empty() + param_names(d.generic_params@)).take(saved as int) =~= Seq::<Seq<char>>::empty());
            assert(self.scope().len() == self.generic_scope@.len());
            self.leave_generics(saved, Ghost(Seq::empty()));
            assert(self.texts() =~= old(self).texts() + enum_defs_errors(ix, mi as int, mod_name@, ds@.take(i + 1)));
        }
        assert(ds@.take(n as int) =~= ds@);
    }

    fn verify_struct_defs(&mut self, mi: usize, mod_name: &str, ds: &Vec<StructDef>)
        requires
            old(self).scope() == Seq::<Seq<char>>::empty(),
        ensures
            final(self).keeps(old(self)),
            final(self).texts() == old(self).texts() + struct_defs_errors(old(self).ix(), mi as int, mod_name@, ds@),
    {
        let ghost ix = self.ix();
        let ghost sc = self.scope();
        let n = ds.len();
        for i in 0..n
            invariant
                n == ds@.len(),
                self.keeps(old(self)),
                ix == old(self).ix(),
                self.scope() == Seq::<Seq<char>>::empty(),
                self.texts() == old(self).texts() + struct_defs_errors(ix, mi as int, mod_name@, ds@.take(i as int)),
        {
            assert(ds@.take(i + 1).drop_last() =~= ds@.take(i as int));
            let d = &ds[i];
            let saved = self.generic_scope.len();
            self.enter_generics(&d.generic_params);
            self.verify_struct_children(mi, mod_name, &d.children);
            self.verify_generic_bounds(mi, mod_name, &d.generic_params);
            assert(self.scope().len() == self.generic_scope@.len());
            assert((Seq::<Seq<char>>::empty() + param_names(d.generic_params@)).take(saved as int) =~= Seq::<Seq<char>>::empty());
            assert(self.scope().len() == self.generic_scope@.len());
            self.leave_generics(saved, Ghost(Seq::empty()));
            assert(self.texts() =~= old(self).texts() + struct_defs_errors(ix, mi as int, mod_name@, ds@.take(i + 1)));
        }
        assert(ds@.take(n as int) =~= ds@);
    }

    fn verify_newtype_defs(&mut self, mi: usize, mod_name: &str, ds: &Vec<NewtypeDef>)
        requires
            old(self).scope() == Seq::<Seq<char>>::empty(),
        ensures
            final(self).keeps(old(self)),
            final(self).texts() == old(self).texts() + newtype_defs_errors(old(self).ix(), mi as int, mod_name@, ds@),
    {
        let ghost ix = self.ix();
        let ghost sc = self.scope();
        let n = ds.len();
        for i in 0..n
            invariant
                n == ds@.len(),
                self.keeps(old(self)),
                ix == old(self).ix(),
                self.scope() == Seq::<Seq<char>>::empty(),
                self.texts() == old(self).texts() + newtype_defs_errors(ix, mi as int, mod_name@, ds@.take(i as int)),
        {
            assert(ds@.take(i + 1).drop_last() =~= ds@.take(i as int));
            let d = &ds[i];
            let saved = self.generic_scope.len();
            self.enter_generics(&d.generic_params);
            self.verify_type_expr(mi, mod_name, &d.wraps);
            self.verify_generic_bounds(mi, mod_name, &d.generic_params);
            assert(self.scope().len() == self.generic_scope@.len());
            assert((Seq::<Seq<char>>::empty() + param_names(d.generic_params@)).take(saved as int) =~= Seq::<Seq<char>>::empty());
            assert(self.scope().len() == self.generic_scope@.len());
            self.leave_generics(saved, Ghost(Seq::empty()));
            assert(self.texts() =~= old(self).texts() + newtype_defs_errors(ix, mi as int, mod_name@, ds@.take(i + 1)));
        }
        assert(ds@.take(n as int) =~= ds@);
    }

    fn verify_const_defs(&mut self, mi: usize, mod_name: &str, ds: &Vec<ConstDef>)
        requires
            old(self).scope() == Seq::<Seq<char>>::empty(),
        ensures
            final(self).keeps(old(self)),
            final(self).texts() == old(self).texts() + const_defs_errors(old(self).ix(), mi as int, mod_name@, ds@),
    {
        let ghost ix = self.ix();
        let ghost sc = self.scope();
        let n = ds.len();
        for i in 0..n
            invariant
                n == ds@.len(),
                self.keeps(old(self)),
                ix == old(self).ix(),
                self.scope() == Seq::<Seq<char>>::empty(),
                self.texts() == old(self).texts() + const_defs_errors(ix, mi as int, mod_name@, ds@.take(i as int)),
        {
            assert(ds@.take(i + 1).drop_last() =~= ds@.take(i as int));
            let d = &ds[i];
            self.generic_scope.clear();
            assert(self.scope() =~= Seq::<Seq<char>>::empty());
            self.verify_type_expr(mi, mod_name, &d.typ);
            assert(self.texts() =~= old(self).texts() + const_defs_errors(ix, mi as int, mod_name@, ds@.take(i + 1)));
        }
        assert(ds@.take(n as int) =~= ds@);
    }

    fn verify_signatures(&mut self, mi: usize, mod_name: &str, ds: &Vec<MethodSig>)
        ensures
            final(self).keeps(old(self)),
            final(self).texts() == old(self).texts() + signatures_errors(old(self).ix(), mi as int, mod_name@, old(self).scope(), ds@),
    {
        let ghost ix = self.ix();
        let ghost sc = self.scope();
        let n = ds.len();
        for i in 0..n
            invariant
                n == ds@.len(),
                self.keeps(old(self)),
                ix == old(self).ix(),
                sc == old(self).scope(),
                self.texts() == old(self).texts() + signatures_errors(ix, mi as int, mod_name@, sc, ds@.take(i as int)),
        {
            assert(ds@.take(i + 1).drop_last() =~= ds@.take(i as int));
            let d = &ds[i];
            self.verify_method_types(mi, mod_name, &d.generic_params, &d.params, &d.return_type);
            assert(self.texts() =~= old(self).texts() + signatures_errors(ix, mi as int, mod_name@, sc, ds@.take(i + 1)));
        }
        assert(ds@.take(n as int) =~= ds@);
    }

    fn verify_method_defs(&mut self, mi: usize, mod_name: &str, ds: &Vec<MethodDef>)
        ensures
            final(self).keeps(old(self)),
            final(self).texts() == old(self).texts() + method_defs_errors(old(self).ix(), mi as int, mod_name@, old(self).scope(), ds@),
    {
        let ghost ix = self.ix();
        let ghost sc = self.scope();
        let n = ds.len();
        for i in 0..n
            invariant
                n == ds@.len(),
                self.keeps(old(self)),
                ix == old(self).ix(),
                sc == old(self).scope(),
                self.texts() == old(self).texts() + method_defs_errors(ix, mi as int, mod_name@, sc, ds@.take(i as int)),
        {
            assert(ds@.take(i + 1).drop_last() =~= ds@.take(i as int));
            let d = &ds[i];
            self.verify_method_types(mi, mod_name, &d.generic_params, &d.params, &d.return_type);
            assert(self.texts() =~= old(self).texts() + method_defs_errors(ix, mi as int, mod_name@, sc, ds@.take(i + 1)));
        }
        assert(ds@.take(n as int) =~= ds@);
    }

    fn verify_trait_decls(&mut self, mi: usize, mod_name: &str, ds: &Vec<TraitDeclDef>)
        requires
            old(self).scope() == Seq::<Seq<char>>::empty(),
        ensures
            final(self).keeps(old(self)),
            final(self).texts() == old(self).texts() + trait_decls_errors(old(self).ix(), mi as int, mod_name@, ds@),
    {
        let ghost ix = self.ix();
        let ghost sc = self.scope();
        let n = ds.len();
        for i in 0..n
            invariant
                n == ds@.len(),
                self.keeps(old(self)),
                ix == old(self).ix(),
                self.scope() == Seq::<Seq<char>>::empty(),
                self.texts() == old(self).texts() + trait_decls_errors(ix, mi as int, mod_name@, ds@.take(i as int)),
        {
            assert(ds@.take(i + 1).drop_last() =~= ds@.take(i as int));
            let d = &ds[i];
            let saved = self.generic_scope.len();
            self.enter_generics(&d.generic_params);
            self.verify_trait_bounds(mi, mod_name, &d.super_traits);
            self.verify_signatures(mi, mod_name, &d.signatures);
            self.verify_generic_bounds(mi, mod_name, &d.generic_params);
            assert(self.scope().len() == self.generic_scope@.len());
            assert((Seq::<Seq<char>>::empty() + param_names(d.generic_params@)).take(saved as int) =~= Seq::<Seq<char>>::empty());
            assert(self.scope().len() == self.generic_scope@.len());
            self.leave_generics(saved, Ghost(Seq::empty()));
            assert(self.texts() =~= old(self).texts() + trait_decls_errors(ix, mi as int, mod_name@, ds@.take(i + 1)));
        }
        assert(ds@.take(n as int) =~= ds@);
    }

    #[verifier::spinoff_prover]
    #[verifier::rlimit(80)]
    fn verify_trait_impls(&mut self, mi: usize, mod_name: &str, ds: &Vec<TraitImplDef>)
        requires
            old(self).scope() == Seq::<Seq<char>>::empty(),
        ensures
            final(self).keeps(old(self)),
            final(self).texts() == old(self).texts() + trait_impls_errors(old(self).ix(), mi as int, mod_name@, ds@),
    {
        let ghost ix = self.ix();
        let ghost sc = self.scope();
        let n = ds.len();
        for i in 0..n
            invariant
                n == ds@.len(),
                self.keeps(old(self)),
                ix == old(self).ix(),
                self.scope() == Seq::<Seq<char>>::empty(),
                self.texts() == old(self).texts() + trait_impls_errors(ix, mi as int, mod_name@, ds@.take(i as int)),
        {
            assert(ds@.take(i + 1).drop_last() =~= ds@.take(i as int));
            let d = &ds[i];
            let ghost t0 = self.texts();
            let ghost sc = param_names(d.generic_params@);
            let saved = self.generic_scope.len();
            self.enter_generics(&d.generic_params);
            assert(self.scope() =~= sc);
            if !self.index.trait_exists(mi, d.trait_name.0.as_str()) {
                self.err(mod_name, write_unknown_impl_trait(d.trait_name.0.as_str()));
            }
            let ghost t1 = self.texts();
            self.verify_type_expr(mi, mod_name, &d.typ);
            self.verify_type_exprs(mi, mod_name, &d.trait_args);
            self.verify_method_defs(mi, mod_name, &d.methods);
            self.verify_generic_bounds(mi, mod_name, &d.generic_params);
            assert(self.texts() =~= t1 + type_expr_errors(ix, mi as int, mod_name@, sc, d.typ)
                + type_exprs_errors(ix, mi as int, mod_name@, sc, d.trait_args@)
                + method_defs_errors(ix, mi as int, mod_name@, sc, d.methods@)
                + generic_bounds_errors(ix, mi as int, mod_name@, sc, d.generic_params@));
            assert(self.scope().len() == self.generic_scope@.len());
            assert((Seq::<Seq<char>>::empty() + param_names(d.generic_params@)).take(saved as int) =~= Seq::<Seq<char>>::empty());
            assert(self.scope().len() == self.generic_scope@.len());
            self.leave_generics(saved, Ghost(Seq::empty()));
            assert(self.texts() =~= old(self).texts() + trait_impls_errors(ix, mi as int, mod_name@, ds@.take(i + 1)));
        }
        assert(ds@.take(n as int) =~= ds@);
    }

    fn verify_ffi_functions(&mut self, mi: usize, mod_name: &str, ds: &Vec<FfiFunction>)
        requires
            old(self).scope() == Seq::<Seq<char>>::empty(),
        ensures
            final(self).keeps(old(self)),
            final(self).texts() == old(self).texts() + ffi_functions_errors(old(self).ix(), mi as int, mod_name@, ds@),
    {
        let ghost ix = self.ix();
        let ghost sc = self.scope();
        let n = ds.len();
        for i in 0..n
            invariant
                n == ds@.len(),
                self.keeps(old(self)),
                ix == old(self).ix(),
                self.scope() == Seq::<Seq<char>>::empty(),
                self.texts() == old(self).texts() + ffi_functions_errors(ix, mi as int, mod_name@, ds@.take(i as int)),
        {
            assert(ds@.take(i + 1).drop_last() =~= ds@.take(i as int));
            let d = &ds[i];
            self.generic_scope.clear();
            assert(self.scope() =~= Seq::<Seq<char>>::empty());
            self.verify_params(mi, mod_name, &d.params);
            self.verify_opt_type(mi, mod_name, &d.return_type);
            assert(self.texts() =~= old(self).texts() + ffi_functions_errors(ix, mi as int, mod_name@, ds@.take(i + 1)));
        }
        assert(ds@.take(n as int) =~= ds@);
    }

    fn verify_ffi_defs(&mut self, mi: usize, mod_name: &str, ds: &Vec<FfiDef>)
        requires
            old(self).scope() == Seq::<Seq<char>>::empty(),
        ensures
            final(self).keeps(old(self)),
            final(self).texts() == old(self).texts() + ffi_defs_errors(old(self).ix(), mi as int, mod_name@, ds@),
    {
        let ghost ix = self.ix();
        let ghost sc = self.scope();
        let n = ds.len();
        for i in 0..n
            invariant
                n == ds@.len(),
                self.keeps(old(self)),
                ix == old(self).ix(),
                self.scope() == Seq::<Seq<char>>::empty(),
                self.texts() == old(self).texts() + ffi_defs_errors(ix, mi as int, mod_name@, ds@.take(i as int)),
        {
            assert(ds@.take(i + 1).drop_last() =~= ds@.take(i as int));
            let d = &ds[i];
            self.verify_ffi_functions(mi, mod_name, &d.functions);
            assert(self.texts() =~= old(self).texts() + ffi_defs_errors(ix, mi as int, mod_name@, ds@.take(i + 1)));
        }
        assert(ds@.take(n as int) =~= ds@);
    }

    fn verify_module_types(&mut self, mi: usize, m: &ModuleDef)
        requires
            old(self).scope() == Seq::<Seq<char>>::empty(),
        ensures
            final(self).keeps(old(self)),
            final(self).texts() == old(self).texts() + module_type_errors(old(self).ix(), mi as int, *m),
    {
        let ghost ix = self.ix();
        let ghost mn = m.name.0@;
        let ghost t0 = self.texts();
        let mod_name = m.name.0.as_str();
        self.verify_enum_defs(mi, mod_name, &m.enums);
        let ghost a = enum_defs_errors(ix, mi as int, mn, m.enums@);
        self.verify_struct_defs(mi, mod_name, &m.structs);
        let ghost b = a + struct_defs_errors(ix, mi as int, mn, m.structs@);
        assert(self.texts() =~= t0 + b);
        self.verify_newtype_defs(mi, mod_name, &m.newtypes);
        let ghost c = b + newtype_defs_errors(ix, mi as int, mn, m.newtypes@);
        assert(self.texts() =~= t0 + c);
        self.verify_const_defs(mi, mod_name, &m.consts);
        let ghost d = c + const_defs_errors(ix, mi as int, mn, m.consts@);
        assert(self.texts() =~= t0 + d);
        self.verify_trait_decls(mi, mod_name, &m.trait_decls);
        let ghost e = d + trait_decls_errors(ix, mi as int, mn, m.trait_decls@);
        assert(self.texts() =~= t0 + e);
        self.verify_trait_impls(mi, mod_name, &m.trait_impls);
        let ghost f = e + trait_impls_errors(ix, mi as int, mn, m.trait_impls@);
        assert(self.texts() =~= t0 + f);
        self.verify_ffi_defs(mi, mod_name, &m.ffi);
        let ghost g = f + ffi_defs_errors(ix, mi as int, mn, m.ffi@);
        assert(self.texts() =~= t0 + g);
    }

    fn tier2_type_graph(&mut self)
        requires
            old(self).scope() == Seq::<Seq<char>>::empty(),
        ensures
            final(self).keeps(old(self)),
            final(self).texts() == old(self).texts() + type_graph_errors(
                old(self).program(),
                old(self).ix(),
                old(self).program().len(),
            ),
    {
        let ghost ix = self.ix();
        let ghost ms = self.program();
        let n = self.modules.len();
        for mi in 0..n
            invariant
                n == ms.len(),
                self.keeps(old(self)),
                ix == old(self).ix(),
                ms == old(self).program(),
                self.scope() == Seq::<Seq<char>>::empty(),
                self.texts() == old(self).texts() + type_graph_errors(ms, ix, mi as nat),
        {
            let m = &self.modules[mi];
            self.verify_module_types(mi, m);
            self.generic_scope.clear();
            assert(self.scope() =~= Seq::<Seq<char>>::empty());
            assert(self.texts() =~= old(self).texts() + type_graph_errors(ms, ix, (mi + 1) as nat));
        }
    }
}

impl<'a> Verifier<'a> {
    fn verify_exports(&mut self, mi: usize, mod_name: &str, es: &Vec<ExportItem>)
        ensures
            final(self).keeps(old(self)),
            final(self).texts() == old(self).texts() + export_errors(old(self).ix(), mi as int, mod_name@, es@),
    {
        let ghost ix = self.ix();
        let n = es.len();
        for i in 0..n
            invariant
                n == es@.len(),
                self.keeps(old(self)),
                ix == old(self).ix(),
                self.texts() == old(self).texts() + export_errors(ix, mi as int, mod_name@, es@.take(i as int)),
        {
            assert(es@.take(i + 1).drop_last() =~= es@.take(i as int));
            match &es[i] {
                ExportItem::Type_(name) => {
                    if !(mi < self.index.types.len() && self.index.types[mi].contains_key(name.0.as_str())) {
                        self.err(mod_name, write_exports_missing_type(name.0.as_str()));
                    }
                },
                ExportItem::Trait(name) => {
                    if !(mi < self.index.traits.len() && self.index.traits[mi].contains_key(name.0.as_str())) {
                        self.err(mod_name, write_exports_missing_trait(name.0.as_str()));
                    }
                },
            }
            assert(self.texts() =~= old(self).texts() + export_errors(ix, mi as int, mod_name@, es@.take(i + 1)));
        }
        assert(es@.take(n as int) =~= es@);
    }

    fn verify_import_items(
        &mut self,
        mod_name: &str,
        src_name: &str,
        src_mi: usize,
        items: &Vec<ImportItem>,
        imported_names: &mut NameSet,
    )
        ensures
            final(self).keeps(old(self)),
            final(self).texts() == old(self).texts() + item_errors(
                old(self).ix(),
                mod_name@,
                src_name@,
                src_mi,
                old(imported_names)@,
                items@,
            ),
            final(imported_names)@ == old(imported_names)@ + item_names(items@).to_set(),
    {
        let ghost ix = self.ix();
        let ghost seen = imported_names@;
        assert(seen + item_names(items@.take(0)).to_set() =~= seen);
        let n = items.len();
        for i in 0..n
            invariant
                n == items@.len(),
                self.keeps(old(self)),
                ix == old(self).ix(),
                seen == old(imported_names)@,
                imported_names@ == seen + item_names(items@.take(i as int)).to_set(),
                self.texts() == old(self).texts() + item_errors(ix, mod_name@, src_name@, src_mi, seen, items@.take(i as int)),
        {
            let ghost its = items@.take(i + 1);
            assert(its.drop_last() =~= items@.take(i as int));
            let item = &items[i];
            let (name, is_trait): (&str, bool) = match item {
                ImportItem::Type_(n) => (n.0.as_str(), false),
                ImportItem::Trait(n) => (n.0.as_str(), true),
            };
            let exported = if is_trait {
                src_mi < self.index.exported_traits.len() && self.index.exported_traits[src_mi].contains(name)
            } else {
                src_mi < self.index.exported_types.len() && self.index.exported_types[src_mi].contains(name)
            };
            if !exported {
                let kind: &str = if is_trait { "trait" } else { "type" };
                self.err(mod_name, write_not_exported(kind, name, src_name));
            }
            let ghost mid = self.texts();
            if !imported_names.insert(name.to_owned()) {
                self.err(mod_name, write_imported_twice(name));
            }
            proof {
                item_names(items@.take(i as int)).lemma_push_to_set_commute(name@);
                assert(item_names(its) =~= item_names(items@.take(i as int)).push(name@));
            }
            assert(imported_names@ =~= seen + item_names(its).to_set());
            assert(self.texts() =~= old(self).texts() + item_errors(ix, mod_name@, src_name@, src_mi, seen, its));
        }
        assert(items@.take(n as int) =~= items@);
    }

    fn verify_imports(&mut self, mod_name: &str, imps: &Vec<ModuleImport>)
        ensures
            final(self).keeps(old(self)),
            final(self).texts() == old(self).texts() + import_errors(old(self).ix(), mod_name@, imps@),
    {
        let ghost ix = self.ix();
        let mut imported_names = NameSet::new();
        let n = imps.len();
        for i in 0..n
            invariant
                n == imps@.len(),
                self.keeps(old(self)),
                ix == old(self).ix(),
                imported_names@ == imported_before(ix, imps@.take(i as int)),
                self.texts() == old(self).texts() + import_errors(ix, mod_name@, imps@.take(i as int)),
        {
            assert(imps@.take(i + 1).drop_last() =~= imps@.take(i as int));
            let imp = &imps[i];
            let src_name = imp.source.0.as_str();
            match self.index.modules.get(src_name) {
                None => {
                    self.err(mod_name, write_missing_module(src_name));
                },
                Some(src_mi) => {
                    self.verify_import_items(mod_name, src_name, src_mi, &imp.names, &mut imported_names);
                },
            }
            assert(self.texts() =~= old(self).texts() + import_errors(ix, mod_name@, imps@.take(i + 1)));
        }
        assert(imps@.take(n as int) =~= imps@);
    }

    fn report_cycles(&mut self, cycles: &Vec<Vec<usize>>)
        requires
            forall|i: int| 0 <= i < cycles@.len() ==> is_import_cycle(old(self).ix().import_graph, #[trigger] cycles@[i]@),
            old(self).ix().import_graph.len() <= old(self).program().len(),
        ensures
            final(self).keeps(old(self)),
            final(self).texts() == old(self).texts() + cycle_errors(
                old(self).program(),
                Seq::new(cycles@.len(), |i: int| cycles@[i]@),
            ),
    {
        let ghost ms = self.program();
        let ghost cs = Seq::new(cycles@.len(), |i: int| cycles@[i]@);
        let n = cycles.len();
        for k in 0..n
            invariant
                n == cycles@.len(),
                self.keeps(old(self)),
                ms == old(self).program(),
                cs == Seq::new(cycles@.len(), |i: int| cycles@[i]@),
                forall|i: int| 0 <= i < cycles@.len() ==> is_import_cycle(old(self).ix().import_graph, #[trigger] cycles@[i]@),
                old(self).ix().import_graph.len() <= ms.len(),
                self.texts() == old(self).texts() + cycle_errors(ms, cs.take(k as int)),
        {
            let cycle = &cycles[k];
            assert(is_import_cycle(old(self).ix().import_graph, cycles@[k as int]@));
            let mut names: Vec<&str> = Vec::new();
            let len = cycle.len();
            for j in 0..len
                invariant
                    len == cycle@.len(),
                    cycle@ == cs[k as int],
                    ms == self.modules@,
                    forall|i: int| 0 <= i < cycle@.len() ==> cycle@[i] < ms.len(),
                    names@.len() == j,
                    forall|i: int| 0 <= i < j ==> names@[i]@ == ms[cycle@[i] as int].name.0@,
            {
                names.push(self.modules[cycle[j]].name.0.as_str());
            }
            let msg = write_circular(&names);
            assert(Seq::new(names@.len(), |i: int| names@[i]@) =~= cycle_names(ms, cs[k as int]));
            self.err(names[0], msg);
            assert(self.texts() =~= old(self).texts() + cycle_errors(ms, cs.take(k + 1)));
        }
        assert(cs.take(n as int) =~= cs);
    }

    fn tier1_imports(&mut self)
        requires
            old(self).ix().import_graph.len() <= old(self).program().len(),
        ensures
            final(self).keeps(old(self)),
            final(self).texts() == old(self).texts() + import_tier_errors(old(self).program(), old(self).ix()),
    {
        let ghost ix = self.ix();
        let ghost ms = self.program();
        let cycles = self.index.find_import_cycles();
        proof {
            lemma_reported_cycles_are_cycles(ix.import_graph);
            assert(Seq::new(cycles@.len(), |i: int| cycles@[i]@) =~= import_cycles(ix.import_graph));
            assert forall|i: int| 0 <= i < cycles@.len() implies is_import_cycle(ix.import_graph, #[trigger] cycles@[i]@) by {
                assert(cycles_view(cycles@)[i] == cycles@[i]@);
            }
        }
        self.report_cycles(&cycles);
        let ghost t1 = self.texts();
        let n = self.modules.len();
        for mi in 0..n
            invariant
                n == ms.len(),
                self.keeps(old(self)),
                ix == old(self).ix(),
                ms == old(self).program(),
                self.texts() == t1 + link_errors(ms, ix, mi as nat),
        {
            let m = &self.modules[mi];
            let mod_name = m.name.0.as_str();
            self.verify_exports(mi, mod_name, &m.exports);
            self.verify_imports(mod_name, &m.imports);
            assert(self.texts() =~= t1 + link_errors(ms, ix, (mi + 1) as nat));
        }
        assert(self.texts() =~= old(self).texts() + import_tier_errors(ms, ix));
    }
}

fn first_trait_decl_in<'b>(tds: &'b Vec<TraitDeclDef>, name: &str) -> (r: Option<&'b TraitDeclDef>)
    ensures
        match r {
            Some(d) => first_trait_decl(tds@, name@) == Some(*d),
            None => first_trait_decl(tds@, name@) is None,
        },
{
    let n = tds.len();
    assert(tds@.subrange(0, n as int) =~= tds@);
    for i in 0..n
        invariant
            n == tds@.len(),
            first_trait_decl(tds@, name@) == first_trait_decl(tds@.subrange(i as int, n as int), name@),
    {
        assert(tds@.subrange(i as int, n as int).drop_first() =~= tds@.subrange(i + 1, n as int));
        if crate::text::same_text(tds[i].name.0.as_str(), name) {
            return Some(&tds[i]);
        }
    }
    None
}

fn imports_trait(items: &Vec<ImportItem>, name: &str) -> (r: bool)
    ensures
        r == names_trait(items@, name@),
{
    let n = items.len();
    for i in 0..n
        invariant
            n == items@.len(),
            forall|j: int| 0 <= j < i ==> !(#[trigger] items@[j] matches ImportItem::Trait(t) && t.0@ == name@),
    {
        if let ImportItem::Trait(t) = &items[i] {
            if crate::text::same_text(t.0.as_str(), name) {
                assert(items@[i as int] matches ImportItem::Trait(t) && t.0@ == name@);
                return true;
            }
        }
    }
    false
}

fn has_method_named(methods: &Vec<MethodDef>, name: &str) -> (r: bool)
    ensures
        r == has_method(methods@, name@),
{
    let n = methods.len();
    for i in 0..n
        invariant
            n == methods@.len(),
            forall|j: int| 0 <= j < i ==> (#[trigger] methods@[j]).name.0@ != name@,
    {
        if crate::text::same_text(methods[i].name.0.as_str(), name) {
            assert(methods@[i as int].name.0@ == name@);
            return true;
        }
    }
    false
}

fn has_signature_named(sigs: &Vec<MethodSig>, name: &str) -> (r: bool)
    ensures
        r == has_signature(sigs@, name@),
{
    let n = sigs.len();
    for i in 0..n
        invariant
            n == sigs@.len(),
            forall|j: int| 0 <= j < i ==> (#[trigger] sigs@[j]).name.0@ != name@,
    {
        if crate::text::same_text(sigs[i].name.0.as_str(), name) {
            assert(sigs@[i as int].name.0@ == name@);
            return true;
        }
    }
    false
}

fn first_signature_in<'b>(sigs: &'b Vec<MethodSig>, name: &str) -> (r: Option<&'b MethodSig>)
    ensures
        match r {
            Some(d) => first_signature(sigs@, name@) == Some(*d),
            None => first_signature(sigs@, name@) is None,
        },
{
    let n = sigs.len();
    assert(sigs@.subrange(0, n as int) =~= sigs@);
    for i in 0..n
        invariant
            n == sigs@.len(),
            first_signature(sigs@, name@) == first_signature(sigs@.subrange(i as int, n as int), name@),
    {
        assert(sigs@.subrange(i as int, n as int).drop_first() =~= sigs@.subrange(i + 1, n as int));
        if crate::text::same_text(sigs[i].name.0.as_str(), name) {
            return Some(&sigs[i]);
        }
    }
    None
}

fn has_assoc_named(ats: &Vec<AssociatedTypeImpl>, name: &str) -> (r: bool)
    ensures
        r == has_assoc_impl(ats@, name@),
{
    let n = ats.len();
    for i in 0..n
        invariant
            n == ats@.len(),
            forall|j: int| 0 <= j < i ==> (#[trigger] ats@[j]).name.0@ != name@,
    {
        if crate::text::same_text(ats[i].name.0.as_str(), name) {
            assert(ats@[i as int].name.0@ == name@);
            return true;
        }
    }
    false
}

impl<'a> Verifier<'a> {
    fn self_kind(param: &Param) -> (k: u8)
        ensures
            k == self_kind_spec(*param),
    {
        match param {
            Param::BorrowSelf => 0,
            Param::MutBorrowSelf => 1,
            Param::OwnedSelf => 2,
            _ => 3,  // non-self
        }
    }

    fn find_trait_decl(&self, module: &'a ModuleDef, trait_name: &str) -> (r: Option<&'a TraitDeclDef>)
        requires
            index_fits(self.program(), self.ix()),
        ensures
            match r {
                Some(d) => find_trait_decl_spec(self.program(), self.ix(), *module, trait_name@) == Some(*d),
                None => find_trait_decl_spec(self.program(), self.ix(), *module, trait_name@) is None,
            },
    {
        if let Some(td) = first_trait_decl_in(&module.trait_decls, trait_name) {
            return Some(td);
        }
        let ghost ms = self.program();
        let ghost ix = self.ix();
        let imps = &module.imports;
        let n = imps.len();
        assert(imps@.subrange(0, n as int) =~= imps@);
        for i in 0..n
            invariant
                n == imps@.len(),
                imps@ == module.imports@,
                first_trait_decl(module.trait_decls@, trait_name@) is None,
                ms == self.program(),
                ix == self.ix(),
                index_fits(ms, ix),
                decl_via_imports(ms, ix, imps@, trait_name@) == decl_via_imports(ms, ix, imps@.subrange(i as int, n as int), trait_name@),
        {
            assert(imps@.subrange(i as int, n as int).drop_first() =~= imps@.subrange(i + 1, n as int));
            let imp = &imps[i];
            let has_trait = imports_trait(&imp.names, trait_name);
            if has_trait {
                if let Some(src_mi) = self.index.modules.get(imp.source.0.as_str()) {
                    if let Some(td) = first_trait_decl_in(&self.modules[src_mi].trait_decls, trait_name) {
                        return Some(td);
                    }
                }
            }
        }
        None
    }

    /// The problems of one method against its declared signature.
    fn check_method_signature(&mut self, mod_name: &str, tn: &str, sig: &MethodSig, method: &MethodDef)
        ensures
            final(self).keeps(old(self)),
            final(self).texts() == old(self).texts() + signature_mismatch_errors(mod_name@, tn@, *sig, *method),
    {
        let ghost before = self.texts();
        // Param count
        if method.params.len() != sig.params.len() {
            self.err(mod_name, write_param_count(tn, method.name.0.as_str(), method.params.len(), sig.params.len()));
        }
        // Return type presence must match
        if method.return_type.is_some() != sig.return_type.is_some() {
            let detail: &str = if sig.return_type.is_some() {
                "expected but missing"
            } else {
                "present but not in declaration"
            };
            self.err(mod_name, write_return_mismatch(tn, method.name.0.as_str(), detail));
        }
        // Self parameter compatibility
        if method.params.len() > 0 && sig.params.len() > 0 {
            let impl_self = Self::self_kind(&method.params[0]);
            let decl_self = Self::self_kind(&sig.params[0]);
            if impl_self != decl_self {
                self.err(mod_name, write_self_kind_mismatch(tn, method.name.0.as_str()));
            }
        }
        assert(self.texts() =~= before + signature_mismatch_errors(mod_name@, tn@, *sig, *method));
    }

    #[verifier::spinoff_prover]
    fn verify_impl_structure(&mut self, m: &ModuleDef, ti: &TraitImplDef)
        requires
            index_fits(old(self).program(), old(self).ix()),
        ensures
            final(self).keeps(old(self)),
            final(self).texts() == old(self).texts() + trait_impl_errors(old(self).program(), old(self).ix(), *m, *ti),
    {
        let ghost ms = self.program();
        let ghost ix = self.ix();
        let mod_name = m.name.0.as_str();
        let tn = ti.trait_name.0.as_str();
        let decl = match self.find_trait_decl(m, tn) {
            Some(d) => d,
            None => {
                assert(self.texts() =~= old(self).texts() + trait_impl_errors(ms, ix, *m, *ti));
                return;
            },
        };
        let ghost t0 = self.texts();
        let sigs = &decl.signatures;
        let methods = &ti.methods;

        // Method completeness: every declared method must be implemented
        let n = sigs.len();
        for i in 0..n
            invariant
                n == sigs@.len(),
                self.keeps(old(self)),
                self.texts() == t0 + missing_method_errors(mod_name@, tn@, sigs@.take(i as int), methods@),
        {
            assert(sigs@.take(i + 1).drop_last() =~= sigs@.take(i as int));
            if !has_method_named(methods, sigs[i].name.0.as_str()) {
                self.err(mod_name, write_missing_method(tn, sigs[i].name.0.as_str()));
            }
            assert(self.texts() =~= t0 + missing_method_errors(mod_name@, tn@, sigs@.take(i + 1), methods@));
        }
        assert(sigs@.take(n as int) =~= sigs@);
        let ghost t1 = self.texts();

        // No extraneous methods
        let n = methods.len();
        for i in 0..n
            invariant
                n == methods@.len(),
                self.keeps(old(self)),
                self.texts() == t1 + extra_method_errors(mod_name@, tn@, sigs@, methods@.take(i as int)),
        {
            assert(methods@.take(i + 1).drop_last() =~= methods@.take(i as int));
            if !has_signature_named(sigs, methods[i].name.0.as_str()) {
                self.err(mod_name, write_extra_method(tn, methods[i].name.0.as_str()));
            }
            assert(self.texts() =~= t1 + extra_method_errors(mod_name@, tn@, sigs@, methods@.take(i + 1)));
        }
        assert(methods@.take(n as int) =~= methods@);
        let ghost t2 = self.texts();

        // Signature consistency for each matching method
        for i in 0..n
            invariant
                n == methods@.len(),
                self.keeps(old(self)),
                self.texts() == t2 + signature_errors(mod_name@, tn@, sigs@, methods@.take(i as int)),
        {
            assert(methods@.take(i + 1).drop_last() =~= methods@.take(i as int));
            let method = &methods[i];
            if let Some(sig) = first_signature_in(sigs, method.name.0.as_str()) {
                self.check_method_signature(mod_name, tn, sig, method);
            }
            assert(self.texts() =~= t2 + signature_errors(mod_name@, tn@, sigs@, methods@.take(i + 1)));
        }
        let ghost t3 = self.texts();

        // Associated types: every required associated type must be provided
        let ats = &decl.associated_types;
        let n = ats.len();
        for i in 0..n
            invariant
                n == ats@.len(),
                self.keeps(old(self)),
                self.texts() == t3 + missing_assoc_errors(mod_name@, tn@, ats@.take(i as int), ti.associated_types@),
        {
            assert(ats@.take(i + 1).drop_last() =~= ats@.take(i as int));
            let at = &ats[i];
            if at.default.is_none() {
                if !has_assoc_named(&ti.associated_types, at.name.0.as_str()) {
                    self.err(mod_name, write_missing_assoc_type(tn, at.name.0.as_str()));
                }
            }
            assert(self.texts() =~= t3 + missing_assoc_errors(mod_name@, tn@, ats@.take(i + 1), ti.associated_types@));
        }
        assert(ats@.take(n as int) =~= ats@);
        assert(self.texts() =~= old(self).texts() + trait_impl_errors(ms, ix, *m, *ti));
    }

    fn tier3_trait_structure(&mut self)
        requires
            index_fits(old(self).program(), old(self).ix()),
        ensures
            final(self).keeps(old(self)),
            final(self).texts() == old(self).texts() + structure_errors(old(self).program(), old(self).ix(), old(self).program().len()),
    {
        let ghost ms = self.program();
        let ghost ix = self.ix();
        let n = self.modules.len();
        for mi in 0..n
            invariant
                n == ms.len(),
                self.keeps(old(self)),
                ms == old(self).program(),
                ix == old(self).ix(),
                index_fits(ms, ix),
                self.texts() == old(self).texts() + structure_errors(ms, ix, mi as nat),
        {
            let m = &self.modules[mi];
            let ghost t0 = self.texts();
            let k = m.trait_impls.len();
            for j in 0..k
                invariant
                    k == m.trait_impls@.len(),
                    m == ms[mi as int],
                    self.keeps(old(self)),
                    ms == old(self).program(),
                    ix == old(self).ix(),
                    index_fits(ms, ix),
                    self.texts() == t0 + trait_impls_structure_errors(ms, ix, *m, m.trait_impls@.take(j as int)),
            {
                assert(m.trait_impls@.take(j + 1).drop_last() =~= m.trait_impls@.take(j as int));
                self.verify_impl_structure(m, &m.trait_impls[j]);
                assert(self.texts() =~= t0 + trait_impls_structure_errors(ms, ix, *m, m.trait_impls@.take(j + 1)));
            }
            assert(m.trait_impls@.take(k as int) =~= m.trait_impls@);
            assert(self.texts() =~= old(self).texts() + structure_errors(ms, ix, (mi + 1) as nat));
        }
    }
}

impl<'a> Verifier<'a> {
    fn check_nested_enum_collisions(&mut self, mod_name: &str, children: &Vec<EnumChild>, top_level: &NameSet)
        ensures
            final(self).keeps(old(self)),
            final(self).texts() == old(self).texts() + nested_enum_collisions(mod_name@, children@, top_level@),
        decreases children@,
    {
        let n = children.len();
        for i in 0..n
            invariant
                n == children@.len(),
                self.keeps(old(self)),
                self.texts() == old(self).texts() + nested_enum_collisions(mod_name@, children@.take(i as int), top_level@),
        {
            assert(children@.take(i + 1).drop_last() =~= children@.take(i as int));
            match &children[i] {
                EnumChild::NestedEnum(e) => {
                    if top_level.contains(e.name.0.as_str()) {
                        self.err(mod_name, write_nested_collision(e.name.0.as_str()));
                    }
                    self.check_nested_enum_collisions(mod_name, &e.children, top_level);
                },
                EnumChild::NestedStruct(st) => {
                    if top_level.contains(st.name.0.as_str()) {
                        self.err(mod_name, write_nested_collision(st.name.0.as_str()));
                    }
                    self.check_nested_struct_collisions(mod_name, &st.children, top_level);
                },
                _ => {},
            }
            assert(self.texts() =~= old(self).texts() + nested_enum_collisions(mod_name@, children@.take(i + 1), top_level@));
        }
        assert(children@.take(n as int) =~= children@);
    }

    fn check_nested_struct_collisions(&mut self, mod_name: &str, children: &Vec<StructChild>, top_level: &NameSet)
        ensures
            final(self).keeps(old(self)),
            final(self).texts() == old(self).texts() + nested_struct_collisions(mod_name@, children@, top_level@),
        decreases children@,
    {
        let n = children.len();
        for i in 0..n
            invariant
                n == children@.len(),
                self.keeps(old(self)),
                self.texts() == old(self).texts() + nested_struct_collisions(mod_name@, children@.take(i as int), top_level@),
        {
            assert(children@.take(i + 1).drop_last() =~= children@.take(i as int));
            match &children[i] {
                StructChild::NestedEnum(e) => {
                    if top_level.contains(e.name.0.as_str()) {
                        self.err(mod_name, write_nested_collision(e.name.0.as_str()));
                    }
                    self.check_nested_enum_collisions(mod_name, &e.children, top_level);
                },
                StructChild::NestedStruct(st) => {
                    if top_level.contains(st.name.0.as_str()) {
                        self.err(mod_name, write_nested_collision(st.name.0.as_str()));
                    }
                    self.check_nested_struct_collisions(mod_name, &st.children, top_level);
                },
                _ => {},
            }
            assert(self.texts() =~= old(self).texts() + nested_struct_collisions(mod_name@, children@.take(i + 1), top_level@));
        }
        assert(children@.take(n as int) =~= children@);
    }

    fn check_generic_uniqueness(&mut self, mod_name: &str, owner_name: &str, params: &Vec<GenericParamDef>)
        ensures
            final(self).keeps(old(self)),
            final(self).texts() == old(self).texts() + generic_uniqueness_errors(mod_name@, owner_name@, params@),
    {
        let mut seen = NameSet::new();
        let n = params.len();
        for i in 0..n
            invariant
                n == params@.len(),
                self.keeps(old(self)),
                seen@ == param_names(params@.take(i as int)).to_set(),
                self.texts() == old(self).texts() + generic_uniqueness_errors(mod_name@, owner_name@, params@.take(i as int)),
        {
            assert(params@.take(i + 1).drop_last() =~= params@.take(i as int));
            let p = &params[i];
            if !seen.insert(p.name.0.clone()) {
                self.err(mod_name, write_duplicate_generic(p.name.0.as_str(), owner_name));
            }
            proof {
                param_names(params@.take(i as int)).lemma_push_to_set_commute(p.name.0@);
                assert(param_names(params@.take(i + 1)) =~= param_names(params@.take(i as int)).push(p.name.0@));
            }
            assert(self.texts() =~= old(self).texts() + generic_uniqueness_errors(mod_name@, owner_name@, params@.take(i + 1)));
        }
        assert(params@.take(n as int) =~= params@);
    }

    fn check_enum_names(&mut self, mod_name: &str, es: &Vec<EnumDef>, all_names: &mut NameSet, top: &NameSet)
        requires
            old(all_names)@ == Set::<Seq<char>>::empty(),
        ensures
            final(self).keeps(old(self)),
            final(self).texts() == old(self).texts() + enum_scope_errors(mod_name@, top@, es@),
            final(all_names)@ == enum_def_names(es@).to_set(),
    {
        assert(enum_def_names(es@.take(0)).to_set() =~= Set::<Seq<char>>::empty());
        let n = es.len();
        for i in 0..n
            invariant
                n == es@.len(),
                self.keeps(old(self)),
                all_names@ == enum_def_names(es@.take(i as int)).to_set(),
                self.texts() == old(self).texts() + enum_scope_errors(mod_name@, top@, es@.take(i as int)),
        {
            let ghost es1 = es@.take(i + 1);
            assert(es1.drop_last() =~= es@.take(i as int));
            let e = &es[i];
            if !all_names.insert(e.name.0.clone()) {
                self.err(mod_name, write_duplicate_type(e.name.0.as_str()));
            }
            // Check nested types don't collide with top-level
            self.check_nested_enum_collisions(mod_name, &e.children, top);
            proof {
                enum_def_names(es@.take(i as int)).lemma_push_to_set_commute(e.name.0@);
                assert(enum_def_names(es1) =~= enum_def_names(es@.take(i as int)).push(e.name.0@));
            }
            assert(self.texts() =~= old(self).texts() + enum_scope_errors(mod_name@, top@, es1));
        }
        assert(es@.take(n as int) =~= es@);
    }

    fn check_struct_names(&mut self, mod_name: &str, ss: &Vec<StructDef>, all_names: &mut NameSet, top: &NameSet)
        ensures
            final(self).keeps(old(self)),
            final(self).texts() == old(self).texts() + struct_scope_errors(mod_name@, old(all_names)@, top@, ss@),
            final(all_names)@ == old(all_names)@ + struct_def_names(ss@).to_set(),
    {
        let ghost base = all_names@;
        assert(base + struct_def_names(ss@.take(0)).to_set() =~= base);
        let n = ss.len();
        for i in 0..n
            invariant
                n == ss@.len(),
                self.keeps(old(self)),
                base == old(all_names)@,
                all_names@ == base + struct_def_names(ss@.take(i as int)).to_set(),
                self.texts() == old(self).texts() + struct_scope_errors(mod_name@, base, top@, ss@.take(i as int)),
        {
            let ghost ss1 = ss@.take(i + 1);
            assert(ss1.drop_last() =~= ss@.take(i as int));
            let st = &ss[i];
            if !all_names.insert(st.name.0.clone()) {
                self.err(mod_name, write_duplicate_type(st.name.0.as_str()));
            }
            self.check_nested_struct_collisions(mod_name, &st.children, top);
            proof {
                struct_def_names(ss@.take(i as int)).lemma_push_to_set_commute(st.name.0@);
                assert(struct_def_names(ss1) =~= struct_def_names(ss@.take(i as int)).push(st.name.0@));
            }
            assert(all_names@ =~= base + struct_def_names(ss1).to_set());
            assert(self.texts() =~= old(self).texts() + struct_scope_errors(mod_name@, base, top@, ss1));
        }
        assert(ss@.take(n as int) =~= ss@);
    }

    fn check_newtype_names(&mut self, mod_name: &str, ns: &Vec<NewtypeDef>, all_names: &mut NameSet)
        ensures
            final(self).keeps(old(self)),
            final(self).texts() == old(self).texts() + newtype_scope_errors(mod_name@, old(all_names)@, ns@),
            final(all_names)@ == old(all_names)@ + newtype_def_names(ns@).to_set(),
    {
        let ghost base = all_names@;
        assert(base + newtype_def_names(ns@.take(0)).to_set() =~= base);
        let n = ns.len();
        for i in 0..n
            invariant
                n == ns@.len(),
                self.keeps(old(self)),
                base == old(all_names)@,
                all_names@ == base + newtype_def_names(ns@.take(i as int)).to_set(),
                self.texts() == old(self).texts() + newtype_scope_errors(mod_name@, base, ns@.take(i as int)),
        {
            let ghost ns1 = ns@.take(i + 1);
            assert(ns1.drop_last() =~= ns@.take(i as int));
            let d = &ns[i];
            if !all_names.insert(d.name.0.clone()) {
                self.err(mod_name, write_duplicate_type(d.name.0.as_str()));
            }
            proof {
                newtype_def_names(ns@.take(i as int)).lemma_push_to_set_commute(d.name.0@);
                assert(newtype_def_names(ns1) =~= newtype_def_names(ns@.take(i as int)).push(d.name.0@));
            }
            assert(all_names@ =~= base + newtype_def_names(ns1).to_set());
            assert(self.texts() =~= old(self).texts() + newtype_scope_errors(mod_name@, base, ns1));
        }
        assert(ns@.take(n as int) =~= ns@);
    }

    fn check_const_names(&mut self, mod_name: &str, cs: &Vec<ConstDef>, all_names: &mut NameSet)
        ensures
            final(self).keeps(old(self)),
            final(self).texts() == old(self).texts() + const_scope_errors(mod_name@, old(all_names)@, cs@),
    {
        let ghost base = all_names@;
        assert(base + const_def_names(cs@.take(0)).to_set() =~= base);
        let n = cs.len();
        for i in 0..n
            invariant
                n == cs@.len(),
                self.keeps(old(self)),
                base == old(all_names)@,
                all_names@ == base + const_def_names(cs@.take(i as int)).to_set(),
                self.texts() == old(self).texts() + const_scope_errors(mod_name@, base, cs@.take(i as int)),
        {
            let ghost cs1 = cs@.take(i + 1);
            assert(cs1.drop_last() =~= cs@.take(i as int));
            let c = &cs[i];
            if !all_names.insert(c.name.0.clone()) {
                self.err(mod_name, write_duplicate_name(c.name.0.as_str()));
            }
            proof {
                const_def_names(cs@.take(i as int)).lemma_push_to_set_commute(c.name.0@);
                assert(const_def_names(cs1) =~= const_def_names(cs@.take(i as int)).push(c.name.0@));
            }
            assert(all_names@ =~= base + const_def_names(cs1).to_set());
            assert(self.texts() =~= old(self).texts() + const_scope_errors(mod_name@, base, cs1));
        }
        assert(cs@.take(n as int) =~= cs@);
    }

    fn check_trait_names(&mut self, mod_name: &str, ts: &Vec<TraitDeclDef>)
        ensures
            final(self).keeps(old(self)),
            final(self).texts() == old(self).texts() + trait_scope_errors(mod_name@, ts@),
    {
        let mut trait_names = NameSet::new();
        assert(trait_decl_names(ts@.take(0)).to_set() =~= Set::<Seq<char>>::empty());
        let n = ts.len();
        for i in 0..n
            invariant
                n == ts@.len(),
                self.keeps(old(self)),
                trait_names@ == trait_decl_names(ts@.take(i as int)).to_set(),
                self.texts() == old(self).texts() + trait_scope_errors(mod_name@, ts@.take(i as int)),
        {
            let ghost ts1 = ts@.take(i + 1);
            assert(ts1.drop_last() =~= ts@.take(i as int));
            let td = &ts[i];
            if !trait_names.insert(td.name.0.clone()) {
                self.err(mod_name, write_duplicate_trait(td.name.0.as_str()));
            }
            proof {
                trait_decl_names(ts@.take(i as int)).lemma_push_to_set_commute(td.name.0@);
                assert(trait_decl_names(ts1) =~= trait_decl_names(ts@.take(i as int)).push(td.name.0@));
            }
            assert(self.texts() =~= old(self).texts() + trait_scope_errors(mod_name@, ts1));
        }
        assert(ts@.take(n as int) =~= ts@);
    }

    fn check_enum_generics(&mut self, mod_name: &str, es: &Vec<EnumDef>)
        ensures
            final(self).keeps(old(self)),
            final(self).texts() == old(self).texts() + enum_generic_errors(mod_name@, es@),
    {
        let n = es.len();
        for i in 0..n
            invariant
                n == es@.len(),
                self.keeps(old(self)),
                self.texts() == old(self).texts() + enum_generic_errors(mod_name@, es@.take(i as int)),
        {
            assert(es@.take(i + 1).drop_last() =~= es@.take(i as int));
            self.check_generic_uniqueness(mod_name, es[i].name.0.as_str(), &es[i].generic_params);
            assert(self.texts() =~= old(self).texts() + enum_generic_errors(mod_name@, es@.take(i + 1)));
        }
        assert(es@.take(n as int) =~= es@);
    }

    fn check_struct_generics(&mut self, mod_name: &str, ss: &Vec<StructDef>)
        ensures
            final(self).keeps(old(self)),
            final(self).texts() == old(self).texts() + struct_generic_errors(mod_name@, ss@),
    {
        let n = ss.len();
        for i in 0..n
            invariant
                n == ss@.len(),
                self.keeps(old(self)),
                self.texts() == old(self).texts() + struct_generic_errors(mod_name@, ss@.take(i as int)),
        {
            assert(ss@.take(i + 1).drop_last() =~= ss@.take(i as int));
            self.check_generic_uniqueness(mod_name, ss[i].name.0.as_str(), &ss[i].generic_params);
            assert(self.texts() =~= old(self).texts() + struct_generic_errors(mod_name@, ss@.take(i + 1)));
        }
        assert(ss@.take(n as int) =~= ss@);
    }

    fn check_newtype_generics(&mut self, mod_name: &str, ns: &Vec<NewtypeDef>)
        ensures
            final(self).keeps(old(self)),
            final(self).texts() == old(self).texts() + newtype_generic_errors(mod_name@, ns@),
    {
        let n = ns.len();
        for i in 0..n
            invariant
                n == ns@.len(),
                self.keeps(old(self)),
                self.texts() == old(self).texts() + newtype_generic_errors(mod_name@, ns@.take(i as int)),
        {
            assert(ns@.take(i + 1).drop_last() =~= ns@.take(i as int));
            self.check_generic_uniqueness(mod_name, ns[i].name.0.as_str(), &ns[i].generic_params);
            assert(self.texts() =~= old(self).texts() + newtype_generic_errors(mod_name@, ns@.take(i + 1)));
        }
        assert(ns@.take(n as int) =~= ns@);
    }

    #[verifier::spinoff_prover]
    #[verifier::rlimit(40)]
    fn verify_module_scopes(&mut self, m: &ModuleDef)
        ensures
            final(self).keeps(old(self)),
            final(self).texts() == old(self).texts() + module_scope_errors(*m),
    {
        let mod_name = m.name.0.as_str();
        let ghost mn = m.name.0@;
        let ghost t0 = self.texts();
        let ghost en = enum_def_names(m.enums@).to_set();
        let ghost sn = en + struct_def_names(m.structs@).to_set();
        let ghost nn = sn + newtype_def_names(m.newtypes@).to_set();
        let top = top_names(m);
        let private = private_types(m);

        // Type name uniqueness at module scope
        let mut all_names = NameSet::new();
        self.check_enum_names(mod_name, &m.enums, &mut all_names, &top);
        let ghost a = enum_scope_errors(mn, top@, m.enums@);
        self.check_struct_names(mod_name, &m.structs, &mut all_names, &top);
        let ghost b = a + struct_scope_errors(mn, en, top@, m.structs@);
        assert(self.texts() =~= t0 + b);
        self.check_newtype_names(mod_name, &m.newtypes, &mut all_names);
        let ghost c = b + newtype_scope_errors(mn, sn, m.newtypes@);
        assert(self.texts() =~= t0 + c);
        self.check_const_names(mod_name, &m.consts, &mut all_names);
        let ghost d = c + const_scope_errors(mn, nn, m.consts@);
        assert(self.texts() =~= t0 + d);

        // Trait name uniqueness
        self.check_trait_names(mod_name, &m.trait_decls);
        let ghost e = d + trait_scope_errors(mn, m.trait_decls@);
        assert(self.texts() =~= t0 + e);

        // Generic param uniqueness per definition
        self.check_enum_generics(mod_name, &m.enums);
        let ghost f = e + enum_generic_errors(mn, m.enums@);
        assert(self.texts() =~= t0 + f);
        self.check_struct_generics(mod_name, &m.structs);
        let ghost g = f + struct_generic_errors(mn, m.structs@);
        assert(self.texts() =~= t0 + g);
        self.check_newtype_generics(mod_name, &m.newtypes);
        let ghost h = g + newtype_generic_errors(mn, m.newtypes@);
        assert(self.texts() =~= t0 + h);
        self.check_trait_generics(mod_name, &m.trait_decls);
        let ghost h2 = h + trait_generic_errors(mn, m.trait_decls@);
        assert(self.texts() =~= t0 + h2);
        self.check_impl_generics(mod_name, &m.trait_impls);
        let ghost h3 = h2 + impl_generic_errors(mn, m.trait_impls@);
        assert(self.texts() =~= t0 + h3);

        // Private types stay out of exports and public interfaces
        self.check_export_visibility(mod_name, &private, &m.exports);
        let ghost v1 = h3 + export_visibility_errors(mn, private@, m.exports@);
        assert(self.texts() =~= t0 + v1);
        self.check_struct_visibility(mod_name, &private, &m.structs);
        let ghost v2 = v1 + struct_visibility_errors(mn, private@, m.structs@);
        assert(self.texts() =~= t0 + v2);
        self.check_trait_visibility(mod_name, &private, &m.trait_decls);
        let ghost v3 = v2 + trait_visibility_errors(mn, private@, m.trait_decls@);
        assert(self.texts() =~= t0 + v3);
    }

    fn check_sig_generics(&mut self, mod_name: &str, ss: &Vec<MethodSig>)
        ensures
            final(self).keeps(old(self)),
            final(self).texts() == old(self).texts() + sig_generic_errors(mod_name@, ss@),
    {
        let n = ss.len();
        for i in 0..n
            invariant
                n == ss@.len(),
                self.keeps(old(self)),
                self.texts() == old(self).texts() + sig_generic_errors(mod_name@, ss@.take(i as int)),
        {
            assert(ss@.take(i + 1).drop_last() =~= ss@.take(i as int));
            self.check_generic_uniqueness(mod_name, ss[i].name.0.as_str(), &ss[i].generic_params);
            assert(self.texts() =~= old(self).texts() + sig_generic_errors(mod_name@, ss@.take(i + 1)));
        }
        assert(ss@.take(n as int) =~= ss@);
    }

    fn check_trait_generics(&mut self, mod_name: &str, ts: &Vec<TraitDeclDef>)
        ensures
            final(self).keeps(old(self)),
            final(self).texts() == old(self).texts() + trait_generic_errors(mod_name@, ts@),
    {
        let n = ts.len();
        for i in 0..n
            invariant
                n == ts@.len(),
                self.keeps(old(self)),
                self.texts() == old(self).texts() + trait_generic_errors(mod_name@, ts@.take(i as int)),
        {
            assert(ts@.take(i + 1).drop_last() =~= ts@.take(i as int));
            self.check_generic_uniqueness(mod_name, ts[i].name.0.as_str(), &ts[i].generic_params);
            self.check_sig_generics(mod_name, &ts[i].signatures);
            assert(self.texts() =~= old(self).texts() + trait_generic_errors(mod_name@, ts@.take(i + 1)));
        }
        assert(ts@.take(n as int) =~= ts@);
    }

    fn check_method_generics(&mut self, mod_name: &str, ds: &Vec<MethodDef>)
        ensures
            final(self).keeps(old(self)),
            final(self).texts() == old(self).texts() + method_generic_errors(mod_name@, ds@),
    {
        let n = ds.len();
        for i in 0..n
            invariant
                n == ds@.len(),
                self.keeps(old(self)),
                self.texts() == old(self).texts() + method_generic_errors(mod_name@, ds@.take(i as int)),
        {
            assert(ds@.take(i + 1).drop_last() =~= ds@.take(i as int));
            self.check_generic_uniqueness(mod_name, ds[i].name.0.as_str(), &ds[i].generic_params);
            assert(self.texts() =~= old(self).texts() + method_generic_errors(mod_name@, ds@.take(i + 1)));
        }
        assert(ds@.take(n as int) =~= ds@);
    }

    fn check_impl_generics(&mut self, mod_name: &str, ts: &Vec<TraitImplDef>)
        ensures
            final(self).keeps(old(self)),
            final(self).texts() == old(self).texts() + impl_generic_errors(mod_name@, ts@),
    {
        let n = ts.len();
        for i in 0..n
            invariant
                n == ts@.len(),
                self.keeps(old(self)),
                self.texts() == old(self).texts() + impl_generic_errors(mod_name@, ts@.take(i as int)),
        {
            assert(ts@.take(i + 1).drop_last() =~= ts@.take(i as int));
            self.check_generic_uniqueness(mod_name, ts[i].trait_name.0.as_str(), &ts[i].generic_params);
            self.check_method_generics(mod_name, &ts[i].methods);
            assert(self.texts() =~= old(self).texts() + impl_generic_errors(mod_name@, ts@.take(i + 1)));
        }
        assert(ts@.take(n as int) =~= ts@);
    }

    fn check_export_visibility(&mut self, mod_name: &str, private: &NameSet, es: &Vec<ExportItem>)
        ensures
            final(self).keeps(old(self)),
            final(self).texts() == old(self).texts() + export_visibility_errors(mod_name@, private@, es@),
    {
        let n = es.len();
        for i in 0..n
            invariant
                n == es@.len(),
                self.keeps(old(self)),
                self.texts() == old(self).texts() + export_visibility_errors(mod_name@, private@, es@.take(i as int)),
        {
            assert(es@.take(i + 1).drop_last() =~= es@.take(i as int));
            match &es[i] {
                ExportItem::Type_(name) => {
                    if private.contains(name.0.as_str()) {
                        self.err(mod_name, write_exports_private(name.0.as_str()));
                    }
                },
                ExportItem::Trait(_) => {},
            }
            assert(self.texts() =~= old(self).texts() + export_visibility_errors(mod_name@, private@, es@.take(i + 1)));
        }
        assert(es@.take(n as int) =~= es@);
    }

    fn check_private_field(&mut self, mod_name: &str, private: &NameSet, owner: &str, names: &Vec<String>)
        ensures
            final(self).keeps(old(self)),
            final(self).texts() == old(self).texts() + private_field_errors(mod_name@, private@, owner@, names_view(names@)),
    {
        let ghost nv = names_view(names@);
        let n = names.len();
        for i in 0..n
            invariant
                n == names@.len(),
                nv == names_view(names@),
                self.keeps(old(self)),
                self.texts() == old(self).texts() + private_field_errors(mod_name@, private@, owner@, nv.take(i as int)),
        {
            assert(nv.take(i + 1).drop_last() =~= nv.take(i as int));
            assert(nv.take(i + 1).last() == names@[i as int]@);
            if private.contains(names[i].as_str()) {
                self.err(mod_name, write_private_in_field(owner, names[i].as_str()));
            }
            assert(self.texts() =~= old(self).texts() + private_field_errors(mod_name@, private@, owner@, nv.take(i + 1)));
        }
        assert(nv.take(n as int) =~= nv);
    }

    fn check_field_visibility(&mut self, mod_name: &str, private: &NameSet, owner: &str, cs: &Vec<StructChild>)
        ensures
            final(self).keeps(old(self)),
            final(self).texts() == old(self).texts() + field_visibility_errors(mod_name@, private@, owner@, cs@),
    {
        let n = cs.len();
        for i in 0..n
            invariant
                n == cs@.len(),
                self.keeps(old(self)),
                self.texts() == old(self).texts() + field_visibility_errors(mod_name@, private@, owner@, cs@.take(i as int)),
        {
            assert(cs@.take(i + 1).drop_last() =~= cs@.take(i as int));
            match &cs[i] {
                StructChild::TypedField { typ, .. } => {
                    let mut names: Vec<String> = Vec::new();
                    collect_type_refs(typ, &mut names);
                    assert(names_view(names@) =~= type_ref_names(*typ)) by {
                        assert(names_view(Seq::<String>::empty()) =~= Seq::<Seq<char>>::empty());
                    }
                    self.check_private_field(mod_name, private, owner, &names);
                },
                _ => {},
            }
            assert(self.texts() =~= old(self).texts() + field_visibility_errors(mod_name@, private@, owner@, cs@.take(i + 1)));
        }
        assert(cs@.take(n as int) =~= cs@);
    }

    fn check_struct_visibility(&mut self, mod_name: &str, private: &NameSet, ss: &Vec<StructDef>)
        ensures
            final(self).keeps(old(self)),
            final(self).texts() == old(self).texts() + struct_visibility_errors(mod_name@, private@, ss@),
    {
        let n = ss.len();
        for i in 0..n
            invariant
                n == ss@.len(),
                self.keeps(old(self)),
                self.texts() == old(self).texts() + struct_visibility_errors(mod_name@, private@, ss@.take(i as int)),
        {
            assert(ss@.take(i + 1).drop_last() =~= ss@.take(i as int));
            match ss[i].visibility {
                Visibility::Public => {
                    self.check_field_visibility(mod_name, private, ss[i].name.0.as_str(), &ss[i].children);
                },
                Visibility::Private => {},
            }
            assert(self.texts() =~= old(self).texts() + struct_visibility_errors(mod_name@, private@, ss@.take(i + 1)));
        }
        assert(ss@.take(n as int) =~= ss@);
    }

    fn check_private_signature(&mut self, mod_name: &str, private: &NameSet, owner: &str, method: &str, names: &Vec<String>)
        ensures
            final(self).keeps(old(self)),
            final(self).texts() == old(self).texts() + private_signature_errors(mod_name@, private@, owner@, method@, names_view(names@)),
    {
        let ghost nv = names_view(names@);
        let n = names.len();
        for i in 0..n
            invariant
                n == names@.len(),
                nv == names_view(names@),
                self.keeps(old(self)),
                self.texts() == old(self).texts() + private_signature_errors(mod_name@, private@, owner@, method@, nv.take(i as int)),
        {
            assert(nv.take(i + 1).drop_last() =~= nv.take(i as int));
            assert(nv.take(i + 1).last() == names@[i as int]@);
            if private.contains(names[i].as_str()) {
                self.err(mod_name, write_private_in_signature(owner, method, names[i].as_str()));
            }
            assert(self.texts() =~= old(self).texts() + private_signature_errors(mod_name@, private@, owner@, method@, nv.take(i + 1)));
        }
        assert(nv.take(n as int) =~= nv);
    }

    fn check_signatures_visibility(&mut self, mod_name: &str, private: &NameSet, owner: &str, ss: &Vec<MethodSig>)
        ensures
            final(self).keeps(old(self)),
            final(self).texts() == old(self).texts() + signatures_visibility_errors(mod_name@, private@, owner@, ss@),
    {
        let n = ss.len();
        for i in 0..n
            invariant
                n == ss@.len(),
                self.keeps(old(self)),
                self.texts() == old(self).texts() + signatures_visibility_errors(mod_name@, private@, owner@, ss@.take(i as int)),
        {
            assert(ss@.take(i + 1).drop_last() =~= ss@.take(i as int));
            let names = signature_refs(&ss[i]);
            self.check_private_signature(mod_name, private, owner, ss[i].name.0.as_str(), &names);
            assert(self.texts() =~= old(self).texts() + signatures_visibility_errors(mod_name@, private@, owner@, ss@.take(i + 1)));
        }
        assert(ss@.take(n as int) =~= ss@);
    }

    fn check_trait_visibility(&mut self, mod_name: &str, private: &NameSet, ts: &Vec<TraitDeclDef>)
        ensures
            final(self).keeps(old(self)),
            final(self).texts() == old(self).texts() + trait_visibility_errors(mod_name@, private@, ts@),
    {
        let n = ts.len();
        for i in 0..n
            invariant
                n == ts@.len(),
                self.keeps(old(self)),
                self.texts() == old(self).texts() + trait_visibility_errors(mod_name@, private@, ts@.take(i as int)),
        {
            assert(ts@.take(i + 1).drop_last() =~= ts@.take(i as int));
            match ts[i].visibility {
                Visibility::Public => {
                    self.check_signatures_visibility(mod_name, private, ts[i].name.0.as_str(), &ts[i].signatures);
                },
                Visibility::Private => {},
            }
            assert(self.texts() =~= old(self).texts() + trait_visibility_errors(mod_name@, private@, ts@.take(i + 1)));
        }
        assert(ts@.take(n as int) =~= ts@);
    }

    fn tier4_scopes(&mut self)
        ensures
            final(self).keeps(old(self)),
            final(self).texts() == old(self).texts() + scope_errors(old(self).program(), old(self).program().len()),
    {
        let ghost ms = self.program();
        let n = self.modules.len();
        for mi in 0..n
            invariant
                n == ms.len(),
                self.keeps(old(self)),
                ms == old(self).program(),
                self.texts() == old(self).texts() + scope_errors(ms, mi as nat),
        {
            self.verify_module_scopes(&self.modules[mi]);
            assert(self.texts() =~= old(self).texts() + scope_errors(ms, (mi + 1) as nat));
        }
    }

    fn verify_const(&mut self, mod_name: &str, c: &ConstDef)
        ensures
            final(self).keeps(old(self)),
            final(self).texts() == old(self).texts() + const_errors(mod_name@, *c),
    {
        let owner_name: Option<&str> = match &c.typ {
            TypeExpr::Named(n) => Some(n.0.as_str()),
            _ => None,
        };
        if let Some(tn) = owner_name {
            // Type/value compatibility
            let compatible = match &c.value {
                LiteralValue::Int(_) => crate::text::same_text(tn, "U8") || crate::text::same_text(tn, "U16")
                    || crate::text::same_text(tn, "U32") || crate::text::same_text(tn, "U64")
                    || crate::text::same_text(tn, "I8") || crate::text::same_text(tn, "I16")
                    || crate::text::same_text(tn, "I32") || crate::text::same_text(tn, "I64"),
                LiteralValue::Float(_) => crate::text::same_text(tn, "F32") || crate::text::same_text(tn, "F64"),
                LiteralValue::Str(_) => crate::text::same_text(tn, "String"),
                LiteralValue::Bool(_) => crate::text::same_text(tn, "Bool"),
                LiteralValue::Char(_) => crate::text::same_text(tn, "Char"),
            };
            if !compatible {
                self.err(mod_name, write_incompatible(c.name.0.as_str(), tn, &c.value));
            }
            let ghost mid = self.texts();

            // Integer range validation
            if let LiteralValue::Int(v) = &c.value {
                let v = *v;
                let in_range = if crate::text::same_text(tn, "U8") {
                    v >= 0 && v <= 255
                } else if crate::text::same_text(tn, "U16") {
                    v >= 0 && v <= 65535
                } else if crate::text::same_text(tn, "U32") {
                    v >= 0 && v <= 4294967295
                } else if crate::text::same_text(tn, "U64") {
                    v >= 0
                } else if crate::text::same_text(tn, "I8") {
                    v >= -128 && v <= 127
                } else if crate::text::same_text(tn, "I16") {
                    v >= -32768 && v <= 32767
                } else if crate::text::same_text(tn, "I32") {
                    v >= -2147483648 && v <= 2147483647
                } else {
                    true
                };
                if !in_range {
                    self.err(mod_name, write_out_of_range(c.name.0.as_str(), v, tn));
                }
            }
            assert(self.texts() =~= old(self).texts() + const_errors(mod_name@, *c));
        } else {
            assert(self.texts() =~= old(self).texts() + const_errors(mod_name@, *c));
        }
    }

    fn tier5_literals(&mut self)
        ensures
            final(self).keeps(old(self)),
            final(self).texts() == old(self).texts() + literal_errors(old(self).program(), old(self).program().len()),
    {
        let ghost ms = self.program();
        let n = self.modules.len();
        for mi in 0..n
            invariant
                n == ms.len(),
                self.keeps(old(self)),
                ms == old(self).program(),
                self.texts() == old(self).texts() + literal_errors(ms, mi as nat),
        {
            let m = &self.modules[mi];
            let mod_name = m.name.0.as_str();
            let ghost t0 = self.texts();
            let k = m.consts.len();
            for j in 0..k
                invariant
                    k == m.consts@.len(),
                    self.keeps(old(self)),
                    self.texts() == t0 + consts_literal_errors(mod_name@, m.consts@.take(j as int)),
            {
                assert(m.consts@.take(j + 1).drop_last() =~= m.consts@.take(j as int));
                self.verify_const(mod_name, &m.consts[j]);
                assert(self.texts() =~= t0 + consts_literal_errors(mod_name@, m.consts@.take(j + 1)));
            }
            assert(m.consts@.take(k as int) =~= m.consts@);
            assert(self.texts() =~= old(self).texts() + literal_errors(ms, (mi + 1) as nat));
        }
    }
}

impl<'a> Verifier<'a> {
    /// Checks a program against its index and returns every problem found.
    pub fn verify(modules: &'a [ModuleDef], index: &'a Index) -> (errors: Vec<VerifyError>)
        requires
            index_fits(modules@, index@),
        ensures
            error_texts(errors@) == verify_spec(modules@, index@),
    {
        let mut v = Verifier { modules, index, errors: Vec::new(), generic_scope: Vec::new() };
        let ghost ms = modules@;
        let ghost ix = index@;
        assert(v.texts() =~= Seq::<ErrorText>::empty());
        assert(v.scope() =~= Seq::<Seq<char>>::empty());
        v.tier1_imports();
        let ghost a = import_tier_errors(ms, ix);
        assert(v.texts() =~= a);
        v.tier2_type_graph();
        let ghost b = a + type_graph_errors(ms, ix, ms.len());
        v.tier3_trait_structure();
        let ghost c = b + structure_errors(ms, ix, ms.len());
        assert(v.texts() =~= c);
        v.tier4_scopes();
        let ghost d = c + scope_errors(ms, ms.len());
        assert(v.texts() =~= d);
        v.tier5_literals();
        let ghost e = d + literal_errors(ms, ms.len());
        assert(v.texts() =~= e);
        v.errors
    }
}

proof fn lemma_map_of_bounded(s: Seq<(Seq<char>, usize)>, bound: nat)
    requires
        forall|i: int| 0 <= i < s.len() ==> (#[trigger] s[i]).1 < bound,
    ensures
        forall|k: Seq<char>| #[trigger] map_of(s).contains_key(k) ==> map_of(s)[k] < bound,
    decreases s.len(),
{
    if s.len() > 0 {
        let r = s.drop_last();
        assert forall|i: int| 0 <= i < r.len() implies (#[trigger] r[i]).1 < bound by {
            assert(r[i] == s[i]);
        }
        lemma_map_of_bounded(r, bound);
        assert(s.last().1 < bound);
        assert(map_of(s) == map_of(r).insert(s.last().0, s.last().1));
    }
}

/// The index built from a program fits it: every module name maps to a
/// position of the program, and the import graph has one node per module.
pub proof fn lemma_built_index_fits(ms: Seq<ModuleDef>)
    ensures
        index_fits(ms, index_of(ms)),
{
    let b = module_bindings(ms);
    assert forall|i: int| 0 <= i < b.len() implies (#[trigger] b[i]).1 < ms.len() by {}
    lemma_map_of_bounded(b, ms.len());
}

/// The characters of each name, in order.
pub open spec fn names_view(v: Seq<String>) -> Seq<Seq<char>> {
    Seq::new(v.len(), |i: int| v[i]@)
}

fn push_name(out: &mut Vec<String>, name: &String)
    ensures
        names_view(final(out)@) == names_view(old(out)@).push(name@),
{
    out.push(name.clone());
    assert(names_view(out@) =~= names_view(old(out)@).push(name@));
}

/// Appends the type names `e` refers to.
fn collect_type_refs(e: &TypeExpr, out: &mut Vec<String>)
    ensures
        names_view(final(out)@) == names_view(old(out)@) + type_ref_names(*e),
    decreases e,
{
    let ghost before = names_view(out@);
    match e {
        TypeExpr::Named(n) => {
            push_name(out, &n.0);
            assert(names_view(out@) =~= before + type_ref_names(*e));
        },
        TypeExpr::Application(app) => {
            push_name(out, &app.constructor.0);
            collect_type_refs_all(&app.args, out);
            assert(names_view(out@) =~= before + type_ref_names(*e));
        },
        TypeExpr::InstanceRef(app) => {
            push_name(out, &app.constructor.0);
            collect_type_refs_all(&app.args, out);
            assert(names_view(out@) =~= before + type_ref_names(*e));
        },
        TypeExpr::Ref { inner } => {
            collect_type_refs(inner, out);
        },
        TypeExpr::MutRef { inner } => {
            collect_type_refs(inner, out);
        },
        TypeExpr::Boxed(inner) => {
            collect_type_refs(inner, out);
        },
        TypeExpr::Tuple { elements } => {
            collect_type_refs_all(elements, out);
        },
        TypeExpr::Array { element, .. } => {
            collect_type_refs(element, out);
        },
        TypeExpr::Slice { element } => {
            collect_type_refs(element, out);
        },
        TypeExpr::FnPtr { params, return_ } => {
            collect_type_refs_all(params, out);
            collect_type_refs(return_, out);
            assert(names_view(out@) =~= before + type_ref_names(*e));
        },
        TypeExpr::DynTrait { bounds } => {
            collect_bounds_refs(bounds, out);
        },
        TypeExpr::ImplTrait { bounds } => {
            collect_bounds_refs(bounds, out);
        },
        TypeExpr::QualifiedPath { base, .. } => {
            collect_type_refs(base, out);
        },
        TypeExpr::Param(_) | TypeExpr::BoundedParam { .. } | TypeExpr::SelfType | TypeExpr::Unit | TypeExpr::Never => {
            assert(names_view(out@) =~= before + type_ref_names(*e));
        },
    }
}

fn collect_type_refs_all(es: &Vec<TypeExpr>, out: &mut Vec<String>)
    ensures
        names_view(final(out)@) == names_view(old(out)@) + type_ref_names_all(es@),
    decreases es@,
{
    let ghost before = names_view(out@);
    let n = es.len();
    for i in 0..n
        invariant
            n == es@.len(),
            names_view(out@) == before + type_ref_names_all(es@.take(i as int)),
    {
        assert(es@.take(i + 1).drop_last() =~= es@.take(i as int));
        collect_type_refs(&es[i], out);
        assert(names_view(out@) =~= before + type_ref_names_all(es@.take(i + 1)));
    }
    assert(es@.take(n as int) =~= es@);
}

fn collect_bound_refs(b: &TraitBound, out: &mut Vec<String>)
    ensures
        names_view(final(out)@) == names_view(old(out)@) + bound_ref_names(*b),
    decreases b,
{
    collect_type_refs_all(&b.args, out);
}

fn collect_bounds_refs(bs: &Vec<TraitBound>, out: &mut Vec<String>)
    ensures
        names_view(final(out)@) == names_view(old(out)@) + bounds_ref_names(bs@),
    decreases bs@,
{
    let ghost before = names_view(out@);
    let n = bs.len();
    for i in 0..n
        invariant
            n == bs@.len(),
            names_view(out@) == before + bounds_ref_names(bs@.take(i as int)),
    {
        assert(bs@.take(i + 1).drop_last() =~= bs@.take(i as int));
        collect_bound_refs(&bs[i], out);
        assert(names_view(out@) =~= before + bounds_ref_names(bs@.take(i + 1)));
    }
    assert(bs@.take(n as int) =~= bs@);
}

/// The type names a signature's parameters and return type refer to.
fn signature_refs(sig: &MethodSig) -> (r: Vec<String>)
    ensures
        names_view(r@) == signature_ref_names(*sig),
{
    let mut out: Vec<String> = Vec::new();
    assert(names_view(out@) =~= params_ref_names(sig.params@.take(0)));
    let n = sig.params.len();
    for i in 0..n
        invariant
            n == sig.params@.len(),
            names_view(out@) == params_ref_names(sig.params@.take(i as int)),
    {
        let ghost before = names_view(out@);
        assert(sig.params@.take(i + 1).drop_last() =~= sig.params@.take(i as int));
        match &sig.params[i] {
            Param::BorrowNamed { typ, .. } | Param::MutBorrowNamed { typ, .. } | Param::Named { typ, .. } => {
                collect_type_refs(typ, &mut out);
            },
            Param::BorrowSelf | Param::MutBorrowSelf | Param::OwnedSelf | Param::Bare { .. } => {},
        }
        assert(names_view(out@) =~= params_ref_names(sig.params@.take(i + 1)));
    }
    assert(sig.params@.take(n as int) =~= sig.params@);
    let ghost mid = names_view(out@);
    if let Some(t) = &sig.return_type {
        collect_type_refs(t, &mut out);
    }
    assert(names_view(out@) =~= signature_ref_names(*sig));
    out
}

/// The names of a module's top level that share one namespace.
fn top_names(m: &ModuleDef) -> (r: NameSet)
    ensures
        r@ == top_level_names(*m),
{
    let mut r = NameSet::new();
    let n = m.enums.len();
    for i in 0..n
        invariant
            n == m.enums@.len(),
            r@ == enum_def_names(m.enums@.take(i as int)).to_set(),
    {
        let ghost prev = enum_def_names(m.enums@.take(i as int));
        r.insert(m.enums[i].name.0.clone());
        proof {
            prev.lemma_push_to_set_commute(m.enums@[i as int].name.0@);
            assert(enum_def_names(m.enums@.take(i + 1)) =~= prev.push(m.enums@[i as int].name.0@));
        }
    }
    assert(m.enums@.take(n as int) =~= m.enums@);
    let ghost a = r@;
    let n = m.structs.len();
    for i in 0..n
        invariant
            n == m.structs@.len(),
            r@ == a + struct_def_names(m.structs@.take(i as int)).to_set(),
    {
        let ghost prev = struct_def_names(m.structs@.take(i as int));
        r.insert(m.structs[i].name.0.clone());
        proof {
            prev.lemma_push_to_set_commute(m.structs@[i as int].name.0@);
            assert(struct_def_names(m.structs@.take(i + 1)) =~= prev.push(m.structs@[i as int].name.0@));
        }
        assert(r@ =~= a + struct_def_names(m.structs@.take(i + 1)).to_set());
    }
    assert(m.structs@.take(n as int) =~= m.structs@);
    let ghost b = r@;
    let n = m.newtypes.len();
    for i in 0..n
        invariant
            n == m.newtypes@.len(),
            r@ == b + newtype_def_names(m.newtypes@.take(i as int)).to_set(),
    {
        let ghost prev = newtype_def_names(m.newtypes@.take(i as int));
        r.insert(m.newtypes[i].name.0.clone());
        proof {
            prev.lemma_push_to_set_commute(m.newtypes@[i as int].name.0@);
            assert(newtype_def_names(m.newtypes@.take(i + 1)) =~= prev.push(m.newtypes@[i as int].name.0@));
        }
        assert(r@ =~= b + newtype_def_names(m.newtypes@.take(i + 1)).to_set());
    }
    assert(m.newtypes@.take(n as int) =~= m.newtypes@);
    let ghost c = r@;
    let n = m.consts.len();
    for i in 0..n
        invariant
            n == m.consts@.len(),
            r@ == c + const_def_names(m.consts@.take(i as int)).to_set(),
    {
        let ghost prev = const_def_names(m.consts@.take(i as int));
        r.insert(m.consts[i].name.0.clone());
        proof {
            prev.lemma_push_to_set_commute(m.consts@[i as int].name.0@);
            assert(const_def_names(m.consts@.take(i + 1)) =~= prev.push(m.consts@[i as int].name.0@));
        }
        assert(r@ =~= c + const_def_names(m.consts@.take(i + 1)).to_set());
    }
    assert(m.consts@.take(n as int) =~= m.consts@);
    assert(r@ =~= top_level_names(*m));
    r
}

/// The private enums, structs and newtypes among the first `k`, `l` and
/// `p` of a module's lists.
pub open spec fn private_names_upto(m: ModuleDef, k: int, l: int, p: int) -> Set<Seq<char>> {
    Set::new(|n: Seq<char>|
        (exists|j: int| 0 <= j < k && #[trigger] m.enums@[j].visibility == Visibility::Private && m.enums@[j].name.0@ == n)
        || (exists|j: int| 0 <= j < l && #[trigger] m.structs@[j].visibility == Visibility::Private && m.structs@[j].name.0@ == n)
        || (exists|j: int| 0 <= j < p && #[trigger] m.newtypes@[j].visibility == Visibility::Private && m.newtypes@[j].name.0@ == n))
}

/// The names of a module's private enums, structs and newtypes.
fn private_types(m: &ModuleDef) -> (r: NameSet)
    ensures
        r@ == private_type_names(*m),
{
    let mut r = NameSet::new();
    assert(r@ =~= private_names_upto(*m, 0, 0, 0));
    let n = m.enums.len();
    for i in 0..n
        invariant
            n == m.enums@.len(),
            r@ == private_names_upto(*m, i as int, 0, 0),
    {
        match m.enums[i].visibility {
            Visibility::Private => {
                r.insert(m.enums[i].name.0.clone());
            },
            Visibility::Public => {},
        }
        assert(r@ =~= private_names_upto(*m, i + 1, 0, 0));
    }
    let n2 = m.structs.len();
    for i in 0..n2
        invariant
            n == m.enums@.len(),
            n2 == m.structs@.len(),
            r@ == private_names_upto(*m, n as int, i as int, 0),
    {
        match m.structs[i].visibility {
            Visibility::Private => {
                r.insert(m.structs[i].name.0.clone());
            },
            Visibility::Public => {},
        }
        assert(r@ =~= private_names_upto(*m, n as int, i + 1, 0));
    }
    let n3 = m.newtypes.len();
    for i in 0..n3
        invariant
            n == m.enums@.len(),
            n2 == m.structs@.len(),
            n3 == m.newtypes@.len(),
            r@ == private_names_upto(*m, n as int, n2 as int, i as int),
    {
        match m.newtypes[i].visibility {
            Visibility::Private => {
                r.insert(m.newtypes[i].name.0.clone());
            },
            Visibility::Public => {},
        }
        assert(r@ =~= private_names_upto(*m, n as int, n2 as int, i + 1));
    }
    assert(r@ =~= private_type_names(*m));
    r
}

} // verus!
