//! What verification promises of the types a clean program names: each
//! resolves to a type in scope, and each application has as many
//! arguments as its constructor takes.

use vstd::prelude::*;

use crate::ast::{
    ConstDef, EnumChild, EnumDef, FfiDef, FfiFunction, GenericParamDef, MethodDef, MethodSig, ModuleDef, NewtypeDef, Param, StructChild, StructDef,
    TraitBound, TraitDeclDef, TraitImplDef, TraitName, TypeExpr, TypedField,
};
use crate::index::{index_of, ix_trait_exists, ix_type_arity, ix_type_exists, IndexView};
use crate::verify::{
    bound_name_errors, generic_bounds_errors, const_defs_errors, ffi_defs_errors, ffi_functions_errors, enum_children_errors, enum_defs_errors, field_errors, method_defs_errors, method_types_errors,
    module_type_errors, newtype_defs_errors, opt_type_errors, param_errors, param_names, params_errors, signatures_errors,
    struct_children_errors, struct_defs_errors, trait_bound_errors, trait_bounds_errors, trait_decls_errors, trait_impls_errors,
    type_expr_errors, type_exprs_errors, type_graph_errors, verify_spec,
};

verus! {

/// What a name in a type expression must be: a type (or a generic
/// parameter in scope), a type of the index alone (the constructor of an
/// instance reference), a generic parameter in scope, a trait, or either a
/// trait or a type (a bound of a bounded parameter).
pub enum RefKind {
    Type,
    Instance,
    Param,
    Trait,
    Bound,
}

/// The names a type expression refers to, at any depth, each with what it
/// must be.
pub open spec fn type_refs(e: TypeExpr) -> Set<(RefKind, Seq<char>)>
    decreases e,
{
    match e {
        TypeExpr::Named(n) => set![(RefKind::Type, n.0@)],
        TypeExpr::Application(app) => set![(RefKind::Type, app.constructor.0@)] + type_refs_all(app.args@),
        TypeExpr::InstanceRef(app) => set![(RefKind::Instance, app.constructor.0@)] + type_refs_all(app.args@),
        TypeExpr::Param(n) => set![(RefKind::Param, n.0@)],
        TypeExpr::BoundedParam { bounds } => bound_name_refs(bounds@),
        TypeExpr::Ref { inner } => type_refs(*inner),
        TypeExpr::MutRef { inner } => type_refs(*inner),
        TypeExpr::Boxed(inner) => type_refs(*inner),
        TypeExpr::Tuple { elements } => type_refs_all(elements@),
        TypeExpr::Array { element, .. } => type_refs(*element),
        TypeExpr::Slice { element } => type_refs(*element),
        TypeExpr::FnPtr { params, return_ } => type_refs_all(params@) + type_refs(*return_),
        TypeExpr::DynTrait { bounds } => bounds_type_refs(bounds@),
        TypeExpr::ImplTrait { bounds } => bounds_type_refs(bounds@),
        TypeExpr::QualifiedPath { base, .. } => type_refs(*base),
        _ => Set::empty(),
    }
}

pub open spec fn type_refs_all(es: Seq<TypeExpr>) -> Set<(RefKind, Seq<char>)>
    decreases es,
{
    if es.len() == 0 {
        Set::empty()
    } else {
        type_refs_all(es.drop_last()) + type_refs(es.last())
    }
}

pub open spec fn bound_name_refs(bs: Seq<TraitName>) -> Set<(RefKind, Seq<char>)>
    decreases bs.len(),
{
    if bs.len() == 0 {
        Set::empty()
    } else {
        bound_name_refs(bs.drop_last()).insert((RefKind::Bound, bs.last().0@))
    }
}

pub open spec fn bound_type_refs(b: TraitBound) -> Set<(RefKind, Seq<char>)>
    decreases b,
{
    set![(RefKind::Trait, b.trait_name.0@)] + type_refs_all(b.args@)
}

pub open spec fn bounds_type_refs(bs: Seq<TraitBound>) -> Set<(RefKind, Seq<char>)>
    decreases bs,
{
    if bs.len() == 0 {
        Set::empty()
    } else {
        bounds_type_refs(bs.drop_last()) + bound_type_refs(bs.last())
    }
}

/// In module `mi`, with the generic parameters `scope` in scope, the name
/// is what it must be.
pub open spec fn ref_resolves(ix: IndexView, mi: int, scope: Seq<Seq<char>>, r: (RefKind, Seq<char>)) -> bool {
    match r.0 {
        RefKind::Type => ix_type_exists(ix, mi, r.1) || scope.contains(r.1),
        RefKind::Instance => ix_type_exists(ix, mi, r.1),
        RefKind::Param => scope.contains(r.1),
        RefKind::Trait => ix_trait_exists(ix, mi, r.1),
        RefKind::Bound => ix_trait_exists(ix, mi, r.1) || ix_type_exists(ix, mi, r.1),
    }
}

pub open spec fn refs_resolve(ix: IndexView, mi: int, scope: Seq<Seq<char>>, rs: Set<(RefKind, Seq<char>)>) -> bool {
    forall|r: (RefKind, Seq<char>)| #[trigger] rs.contains(r) ==> ref_resolves(ix, mi, scope, r)
}

/// The constructor takes `n` type arguments, when its number is known.
pub open spec fn arity_given(ix: IndexView, mi: int, c: Seq<char>, n: nat) -> bool {
    match ix_type_arity(ix, mi, c) {
        Some(k) => n == k,
        None => true,
    }
}

/// Every application in `e` whose constructor has a known number of type
/// parameters is given exactly that many arguments.
pub open spec fn arities_fit(ix: IndexView, mi: int, e: TypeExpr) -> bool
    decreases e,
{
    match e {
        TypeExpr::Application(app) => arity_given(ix, mi, app.constructor.0@, app.args@.len()) && all_arities_fit(ix, mi, app.args@),
        TypeExpr::InstanceRef(app) => all_arities_fit(ix, mi, app.args@),
        TypeExpr::Ref { inner } => arities_fit(ix, mi, *inner),
        TypeExpr::MutRef { inner } => arities_fit(ix, mi, *inner),
        TypeExpr::Boxed(inner) => arities_fit(ix, mi, *inner),
        TypeExpr::Tuple { elements } => all_arities_fit(ix, mi, elements@),
        TypeExpr::Array { element, .. } => arities_fit(ix, mi, *element),
        TypeExpr::Slice { element } => arities_fit(ix, mi, *element),
        TypeExpr::FnPtr { params, return_ } => all_arities_fit(ix, mi, params@) && arities_fit(ix, mi, *return_),
        TypeExpr::DynTrait { bounds } => bounds_arities_fit(ix, mi, bounds@),
        TypeExpr::ImplTrait { bounds } => bounds_arities_fit(ix, mi, bounds@),
        TypeExpr::QualifiedPath { base, .. } => arities_fit(ix, mi, *base),
        _ => true,
    }
}

pub open spec fn all_arities_fit(ix: IndexView, mi: int, es: Seq<TypeExpr>) -> bool
    decreases es,
{
    if es.len() == 0 {
        true
    } else {
        all_arities_fit(ix, mi, es.drop_last()) && arities_fit(ix, mi, es.last())
    }
}

pub open spec fn bound_arities_fit(ix: IndexView, mi: int, b: TraitBound) -> bool
    decreases b,
{
    all_arities_fit(ix, mi, b.args@)
}

pub open spec fn bounds_arities_fit(ix: IndexView, mi: int, bs: Seq<TraitBound>) -> bool
    decreases bs,
{
    if bs.len() == 0 {
        true
    } else {
        bounds_arities_fit(ix, mi, bs.drop_last()) && bound_arities_fit(ix, mi, bs.last())
    }
}

/// In module `mi`, every name `e` refers to is what it must be: a type in
/// scope there (a primitive, or defined in or imported into the module) or
/// one of the generic parameters `params`; an instance reference's
/// constructor a type in scope; a generic parameter one of `params`; a
/// trait named in a bound a trait in scope; a bound of a bounded parameter
/// a trait or a type in scope. And every application in it has as many
/// arguments as its constructor takes.
pub open spec fn type_expr_resolves(ix: IndexView, mi: int, params: Seq<Seq<char>>, e: TypeExpr) -> bool {
    &&& refs_resolve(ix, mi, params, type_refs(e))
    &&& arities_fit(ix, mi, e)
}

proof fn lemma_refs_union(ix: IndexView, mi: int, scope: Seq<Seq<char>>, a: Set<(RefKind, Seq<char>)>, b: Set<(RefKind, Seq<char>)>)
    ensures
        refs_resolve(ix, mi, scope, a + b) <==> refs_resolve(ix, mi, scope, a) && refs_resolve(ix, mi, scope, b),
{
    if refs_resolve(ix, mi, scope, a + b) {
        assert forall|r: (RefKind, Seq<char>)| #[trigger] a.contains(r) implies ref_resolves(ix, mi, scope, r) by {
            assert((a + b).contains(r));
        }
        assert forall|r: (RefKind, Seq<char>)| #[trigger] b.contains(r) implies ref_resolves(ix, mi, scope, r) by {
            assert((a + b).contains(r));
        }
    }
}

proof fn lemma_refs_single(ix: IndexView, mi: int, scope: Seq<Seq<char>>, r: (RefKind, Seq<char>))
    ensures
        refs_resolve(ix, mi, scope, set![r]) <==> ref_resolves(ix, mi, scope, r),
{
    if ref_resolves(ix, mi, scope, r) {
        assert forall|q: (RefKind, Seq<char>)| #[trigger] set![r].contains(q) implies ref_resolves(ix, mi, scope, q) by {}
    }
    assert(set![r].contains(r));
}

proof fn lemma_refs_empty(ix: IndexView, mi: int, scope: Seq<Seq<char>>)
    ensures
        refs_resolve(ix, mi, scope, Set::empty()),
{
}

/// A type expression has no problem exactly when it resolves.
#[verifier::spinoff_prover]
proof fn lemma_type_expr_iff(ix: IndexView, mi: int, mn: Seq<char>, scope: Seq<Seq<char>>, e: TypeExpr)
    ensures
        type_expr_errors(ix, mi, mn, scope, e).len() == 0 <==> type_expr_resolves(ix, mi, scope, e),
    decreases e,
{
    match e {
        TypeExpr::Named(nm) => {
            lemma_refs_single(ix, mi, scope, (RefKind::Type, nm.0@));
        },
        TypeExpr::Application(app) => {
            let c = app.constructor.0@;
            lemma_type_exprs_iff(ix, mi, mn, scope, app.args@);
            lemma_refs_single(ix, mi, scope, (RefKind::Type, c));
            lemma_refs_union(ix, mi, scope, set![(RefKind::Type, c)], type_refs_all(app.args@));
            assert(app.args.len() == app.args@.len());
        },
        TypeExpr::InstanceRef(app) => {
            let c = app.constructor.0@;
            lemma_type_exprs_iff(ix, mi, mn, scope, app.args@);
            lemma_refs_single(ix, mi, scope, (RefKind::Instance, c));
            lemma_refs_union(ix, mi, scope, set![(RefKind::Instance, c)], type_refs_all(app.args@));
        },
        TypeExpr::Param(n) => {
            lemma_refs_single(ix, mi, scope, (RefKind::Param, n.0@));
        },
        TypeExpr::BoundedParam { bounds } => {
            lemma_bound_names_iff(ix, mi, mn, scope, bounds@);
        },
        TypeExpr::Ref { inner } => {
            lemma_type_expr_iff(ix, mi, mn, scope, *inner);
        },
        TypeExpr::MutRef { inner } => {
            lemma_type_expr_iff(ix, mi, mn, scope, *inner);
        },
        TypeExpr::Boxed(inner) => {
            lemma_type_expr_iff(ix, mi, mn, scope, *inner);
        },
        TypeExpr::Tuple { elements } => {
            lemma_type_exprs_iff(ix, mi, mn, scope, elements@);
        },
        TypeExpr::Array { element, .. } => {
            lemma_type_expr_iff(ix, mi, mn, scope, *element);
        },
        TypeExpr::Slice { element } => {
            lemma_type_expr_iff(ix, mi, mn, scope, *element);
        },
        TypeExpr::FnPtr { params, return_ } => {
            lemma_type_exprs_iff(ix, mi, mn, scope, params@);
            lemma_type_expr_iff(ix, mi, mn, scope, *return_);
            lemma_refs_union(ix, mi, scope, type_refs_all(params@), type_refs(*return_));
        },
        TypeExpr::DynTrait { bounds } => {
            lemma_trait_bounds_iff(ix, mi, mn, scope, bounds@);
        },
        TypeExpr::ImplTrait { bounds } => {
            lemma_trait_bounds_iff(ix, mi, mn, scope, bounds@);
        },
        TypeExpr::QualifiedPath { base, .. } => {
            lemma_type_expr_iff(ix, mi, mn, scope, *base);
        },
        _ => {
            lemma_refs_empty(ix, mi, scope);
        },
    }
}

proof fn lemma_type_exprs_iff(ix: IndexView, mi: int, mn: Seq<char>, scope: Seq<Seq<char>>, es: Seq<TypeExpr>)
    ensures
        type_exprs_errors(ix, mi, mn, scope, es).len() == 0 <==> (refs_resolve(ix, mi, scope, type_refs_all(es)) && all_arities_fit(ix, mi, es)),
    decreases es,
{
    if es.len() > 0 {
        lemma_type_exprs_iff(ix, mi, mn, scope, es.drop_last());
        lemma_type_expr_iff(ix, mi, mn, scope, es.last());
        lemma_refs_union(ix, mi, scope, type_refs_all(es.drop_last()), type_refs(es.last()));
    } else {
        lemma_refs_empty(ix, mi, scope);
    }
}

proof fn lemma_bound_names_iff(ix: IndexView, mi: int, mn: Seq<char>, scope: Seq<Seq<char>>, bs: Seq<TraitName>)
    ensures
        bound_name_errors(ix, mi, mn, bs).len() == 0 <==> refs_resolve(ix, mi, scope, bound_name_refs(bs)),
    decreases bs.len(),
{
    if bs.len() > 0 {
        let r = (RefKind::Bound, bs.last().0@);
        lemma_bound_names_iff(ix, mi, mn, scope, bs.drop_last());
        lemma_refs_single(ix, mi, scope, r);
        assert(bound_name_refs(bs) =~= bound_name_refs(bs.drop_last()) + set![r]);
        lemma_refs_union(ix, mi, scope, bound_name_refs(bs.drop_last()), set![r]);
    } else {
        lemma_refs_empty(ix, mi, scope);
    }
}

proof fn lemma_trait_bound_iff(ix: IndexView, mi: int, mn: Seq<char>, scope: Seq<Seq<char>>, b: TraitBound)
    ensures
        trait_bound_errors(ix, mi, mn, scope, b).len() == 0 <==> (refs_resolve(ix, mi, scope, bound_type_refs(b)) && bound_arities_fit(ix, mi, b)),
    decreases b,
{
    let r = (RefKind::Trait, b.trait_name.0@);
    lemma_type_exprs_iff(ix, mi, mn, scope, b.args@);
    lemma_refs_single(ix, mi, scope, r);
    lemma_refs_union(ix, mi, scope, set![r], type_refs_all(b.args@));
}

proof fn lemma_trait_bounds_iff(ix: IndexView, mi: int, mn: Seq<char>, scope: Seq<Seq<char>>, bs: Seq<TraitBound>)
    ensures
        trait_bounds_errors(ix, mi, mn, scope, bs).len() == 0 <==> (refs_resolve(ix, mi, scope, bounds_type_refs(bs)) && bounds_arities_fit(ix, mi, bs)),
    decreases bs,
{
    if bs.len() > 0 {
        lemma_trait_bounds_iff(ix, mi, mn, scope, bs.drop_last());
        lemma_trait_bound_iff(ix, mi, mn, scope, bs.last());
        lemma_refs_union(ix, mi, scope, bounds_type_refs(bs.drop_last()), bound_type_refs(bs.last()));
    } else {
        lemma_refs_empty(ix, mi, scope);
    }
}

proof fn lemma_type_expr_clean(ix: IndexView, mi: int, mn: Seq<char>, scope: Seq<Seq<char>>, e: TypeExpr)
    requires
        type_expr_errors(ix, mi, mn, scope, e).len() == 0,
    ensures
        type_expr_resolves(ix, mi, scope, e),
{
    lemma_type_expr_iff(ix, mi, mn, scope, e);
}

proof fn lemma_fields_clean(ix: IndexView, mi: int, mn: Seq<char>, scope: Seq<Seq<char>>, fs: Seq<TypedField>)
    requires
        field_errors(ix, mi, mn, scope, fs).len() == 0,
    ensures
        forall|f: int| 0 <= f < fs.len() ==> type_expr_resolves(ix, mi, scope, (#[trigger] fs[f]).typ),
    decreases fs.len(),
{
    if fs.len() > 0 {
        let init = fs.drop_last();
        lemma_fields_clean(ix, mi, mn, scope, init);
        lemma_type_expr_clean(ix, mi, mn, scope, fs.last().typ);
        assert forall|f: int| 0 <= f < fs.len() implies type_expr_resolves(ix, mi, scope, (#[trigger] fs[f]).typ) by {
            if f < fs.len() - 1 {
                assert(fs[f] == init[f]);
            }
        }
    }
}

/// The types a struct's children name resolve: each typed field's type;
/// each self-typed field's name, which must be a type in scope (a generic
/// parameter does not count); and, at any depth, everything a nested enum
/// or struct names, with its own generic parameters added to the scope,
/// including the bounds and defaults of those parameters.
pub open spec fn struct_children_resolve(ix: IndexView, mi: int, scope: Seq<Seq<char>>, cs: Seq<StructChild>) -> bool
    decreases cs,
{
    if cs.len() == 0 {
        true
    } else {
        struct_children_resolve(ix, mi, scope, cs.drop_last()) && match cs.last() {
            StructChild::TypedField { typ, .. } => type_expr_resolves(ix, mi, scope, typ),
            StructChild::SelfTypedField { name, .. } => ix_type_exists(ix, mi, name.0@),
            StructChild::NestedEnum(e) => enum_children_resolve(ix, mi, scope + param_names(e.generic_params@), e.children@)
                && params_bounds_resolve(ix, mi, scope + param_names(e.generic_params@), e.generic_params@),
            StructChild::NestedStruct(d) => struct_children_resolve(ix, mi, scope + param_names(d.generic_params@), d.children@)
                && params_bounds_resolve(ix, mi, scope + param_names(d.generic_params@), d.generic_params@),
        }
    }
}

/// The types an enum's children name resolve: each data variant's payload,
/// each field of a struct variant, and, at any depth, everything a nested
/// enum or struct names, with its own generic parameters added to the
/// scope, including the bounds and defaults of those parameters.
pub open spec fn enum_children_resolve(ix: IndexView, mi: int, scope: Seq<Seq<char>>, cs: Seq<EnumChild>) -> bool
    decreases cs,
{
    if cs.len() == 0 {
        true
    } else {
        enum_children_resolve(ix, mi, scope, cs.drop_last()) && match cs.last() {
            EnumChild::Variant { .. } => true,
            EnumChild::DataVariant { payload, .. } => type_expr_resolves(ix, mi, scope, payload),
            EnumChild::StructVariant { fields, .. } => forall|f: int| 0 <= f < fields@.len() ==> type_expr_resolves(
                ix,
                mi,
                scope,
                (#[trigger] fields@[f]).typ,
            ),
            EnumChild::NestedEnum(e) => enum_children_resolve(ix, mi, scope + param_names(e.generic_params@), e.children@)
                && params_bounds_resolve(ix, mi, scope + param_names(e.generic_params@), e.generic_params@),
            EnumChild::NestedStruct(d) => struct_children_resolve(ix, mi, scope + param_names(d.generic_params@), d.children@)
                && params_bounds_resolve(ix, mi, scope + param_names(d.generic_params@), d.generic_params@),
        }
    }
}

proof fn lemma_struct_children_clean(ix: IndexView, mi: int, mn: Seq<char>, scope: Seq<Seq<char>>, cs: Seq<StructChild>)
    requires
        struct_children_errors(ix, mi, mn, scope, cs).len() == 0,
    ensures
        struct_children_resolve(ix, mi, scope, cs),
    decreases cs,
{
    if cs.len() > 0 {
        lemma_struct_children_clean(ix, mi, mn, scope, cs.drop_last());
        match cs.last() {
            StructChild::TypedField { typ, .. } => lemma_type_expr_clean(ix, mi, mn, scope, typ),
            StructChild::SelfTypedField { .. } => {},
            StructChild::NestedEnum(e) => {
                let sc = scope + param_names(e.generic_params@);
                lemma_enum_children_clean(ix, mi, mn, sc, e.children@);
                lemma_generic_bounds_clean(ix, mi, mn, sc, e.generic_params@);
            },
            StructChild::NestedStruct(d) => {
                let sc = scope + param_names(d.generic_params@);
                lemma_struct_children_clean(ix, mi, mn, sc, d.children@);
                lemma_generic_bounds_clean(ix, mi, mn, sc, d.generic_params@);
            },
        }
    }
}

proof fn lemma_enum_children_clean(ix: IndexView, mi: int, mn: Seq<char>, scope: Seq<Seq<char>>, cs: Seq<EnumChild>)
    requires
        enum_children_errors(ix, mi, mn, scope, cs).len() == 0,
    ensures
        enum_children_resolve(ix, mi, scope, cs),
    decreases cs,
{
    if cs.len() > 0 {
        lemma_enum_children_clean(ix, mi, mn, scope, cs.drop_last());
        match cs.last() {
            EnumChild::Variant { .. } => {},
            EnumChild::DataVariant { payload, .. } => lemma_type_expr_clean(ix, mi, mn, scope, payload),
            EnumChild::StructVariant { fields, .. } => lemma_fields_clean(ix, mi, mn, scope, fields@),
            EnumChild::NestedEnum(e) => {
                let sc = scope + param_names(e.generic_params@);
                lemma_enum_children_clean(ix, mi, mn, sc, e.children@);
                lemma_generic_bounds_clean(ix, mi, mn, sc, e.generic_params@);
            },
            EnumChild::NestedStruct(d) => {
                let sc = scope + param_names(d.generic_params@);
                lemma_struct_children_clean(ix, mi, mn, sc, d.children@);
                lemma_generic_bounds_clean(ix, mi, mn, sc, d.generic_params@);
            },
        }
    }
}

proof fn lemma_struct_defs_clean(ix: IndexView, mi: int, mn: Seq<char>, ds: Seq<StructDef>)
    requires
        struct_defs_errors(ix, mi, mn, ds).len() == 0,
    ensures
        forall|k: int| 0 <= k < ds.len() ==> struct_children_resolve(ix, mi, param_names((#[trigger] ds[k]).generic_params@), ds[k].children@)
            && params_bounds_resolve(ix, mi, param_names(ds[k].generic_params@), ds[k].generic_params@),
    decreases ds.len(),
{
    if ds.len() > 0 {
        let init = ds.drop_last();
        let d = ds.last();
        lemma_struct_defs_clean(ix, mi, mn, init);
        lemma_struct_children_clean(ix, mi, mn, param_names(d.generic_params@), d.children@);
        lemma_generic_bounds_clean(ix, mi, mn, param_names(d.generic_params@), d.generic_params@);
        assert forall|k: int| 0 <= k < ds.len() implies struct_children_resolve(ix, mi, param_names((#[trigger] ds[k]).generic_params@), ds[k].children@)
            && params_bounds_resolve(ix, mi, param_names(ds[k].generic_params@), ds[k].generic_params@) by {
            if k < ds.len() - 1 {
                assert(ds[k] == init[k]);
            }
        }
    }
}

proof fn lemma_enum_defs_clean(ix: IndexView, mi: int, mn: Seq<char>, ds: Seq<EnumDef>)
    requires
        enum_defs_errors(ix, mi, mn, ds).len() == 0,
    ensures
        forall|k: int| 0 <= k < ds.len() ==> enum_children_resolve(ix, mi, param_names((#[trigger] ds[k]).generic_params@), ds[k].children@)
            && params_bounds_resolve(ix, mi, param_names(ds[k].generic_params@), ds[k].generic_params@),
    decreases ds.len(),
{
    if ds.len() > 0 {
        let init = ds.drop_last();
        let d = ds.last();
        lemma_enum_defs_clean(ix, mi, mn, init);
        lemma_enum_children_clean(ix, mi, mn, param_names(d.generic_params@), d.children@);
        lemma_generic_bounds_clean(ix, mi, mn, param_names(d.generic_params@), d.generic_params@);
        assert forall|k: int| 0 <= k < ds.len() implies enum_children_resolve(ix, mi, param_names((#[trigger] ds[k]).generic_params@), ds[k].children@)
            && params_bounds_resolve(ix, mi, param_names(ds[k].generic_params@), ds[k].generic_params@) by {
            if k < ds.len() - 1 {
                assert(ds[k] == init[k]);
            }
        }
    }
}

proof fn lemma_newtype_defs_clean(ix: IndexView, mi: int, mn: Seq<char>, ds: Seq<NewtypeDef>)
    requires
        newtype_defs_errors(ix, mi, mn, ds).len() == 0,
    ensures
        forall|k: int| 0 <= k < ds.len() ==> type_expr_resolves(ix, mi, param_names((#[trigger] ds[k]).generic_params@), ds[k].wraps)
            && params_bounds_resolve(ix, mi, param_names(ds[k].generic_params@), ds[k].generic_params@),
    decreases ds.len(),
{
    if ds.len() > 0 {
        let init = ds.drop_last();
        let d = ds.last();
        lemma_newtype_defs_clean(ix, mi, mn, init);
        lemma_type_expr_clean(ix, mi, mn, param_names(d.generic_params@), d.wraps);
        lemma_generic_bounds_clean(ix, mi, mn, param_names(d.generic_params@), d.generic_params@);
        assert forall|k: int| 0 <= k < ds.len() implies type_expr_resolves(ix, mi, param_names((#[trigger] ds[k]).generic_params@), ds[k].wraps)
            && params_bounds_resolve(ix, mi, param_names(ds[k].generic_params@), ds[k].generic_params@) by {
            if k < ds.len() - 1 {
                assert(ds[k] == init[k]);
            }
        }
    }
}

proof fn lemma_const_defs_clean(ix: IndexView, mi: int, mn: Seq<char>, ds: Seq<ConstDef>)
    requires
        const_defs_errors(ix, mi, mn, ds).len() == 0,
    ensures
        forall|k: int| 0 <= k < ds.len() ==> type_expr_resolves(ix, mi, seq![], (#[trigger] ds[k]).typ),
    decreases ds.len(),
{
    if ds.len() > 0 {
        let init = ds.drop_last();
        lemma_const_defs_clean(ix, mi, mn, init);
        lemma_type_expr_clean(ix, mi, mn, seq![], ds.last().typ);
        assert forall|k: int| 0 <= k < ds.len() implies type_expr_resolves(ix, mi, seq![], (#[trigger] ds[k]).typ) by {
            if k < ds.len() - 1 {
                assert(ds[k] == init[k]);
            }
        }
    }
}

proof fn lemma_type_graph_errors_clean(ms: Seq<ModuleDef>, ix: IndexView, n: nat)
    requires
        type_graph_errors(ms, ix, n).len() == 0,
        n <= ms.len(),
    ensures
        forall|k: int| 0 <= k < n ==> (#[trigger] module_type_errors(ix, k, ms[k])).len() == 0,
    decreases n,
{
    if n > 0 {
        lemma_type_graph_errors_clean(ms, ix, (n - 1) as nat);
    }
}

proof fn lemma_type_exprs_each_clean(ix: IndexView, mi: int, mn: Seq<char>, scope: Seq<Seq<char>>, es: Seq<TypeExpr>)
    requires
        type_exprs_errors(ix, mi, mn, scope, es).len() == 0,
    ensures
        forall|k: int| 0 <= k < es.len() ==> type_expr_resolves(ix, mi, scope, #[trigger] es[k]),
    decreases es.len(),
{
    if es.len() > 0 {
        let init = es.drop_last();
        lemma_type_exprs_each_clean(ix, mi, mn, scope, init);
        lemma_type_expr_clean(ix, mi, mn, scope, es.last());
        assert forall|k: int| 0 <= k < es.len() implies type_expr_resolves(ix, mi, scope, #[trigger] es[k]) by {
            if k < es.len() - 1 {
                assert(es[k] == init[k]);
            }
        }
    }
}

/// Each bound names a trait in scope, and the types it is given resolve.
pub open spec fn bounds_resolve(ix: IndexView, mi: int, scope: Seq<Seq<char>>, bs: Seq<TraitBound>) -> bool {
    forall|b: int| 0 <= b < bs.len() ==> ix_trait_exists(ix, mi, (#[trigger] bs[b]).trait_name.0@)
        && forall|k: int| 0 <= k < bs[b].args@.len() ==> type_expr_resolves(ix, mi, scope, #[trigger] bs[b].args@[k])
}

proof fn lemma_bounds_each_clean(ix: IndexView, mi: int, mn: Seq<char>, scope: Seq<Seq<char>>, bs: Seq<TraitBound>)
    requires
        trait_bounds_errors(ix, mi, mn, scope, bs).len() == 0,
    ensures
        bounds_resolve(ix, mi, scope, bs),
    decreases bs.len(),
{
    if bs.len() > 0 {
        let init = bs.drop_last();
        lemma_bounds_each_clean(ix, mi, mn, scope, init);
        let last = bs.last();
        assert(trait_bound_errors(ix, mi, mn, scope, last).len() == 0);
        lemma_type_exprs_each_clean(ix, mi, mn, scope, last.args@);
        assert forall|b: int| 0 <= b < bs.len() implies ix_trait_exists(ix, mi, (#[trigger] bs[b]).trait_name.0@)
            && forall|k: int| 0 <= k < bs[b].args@.len() ==> type_expr_resolves(ix, mi, scope, #[trigger] bs[b].args@[k]) by {
            if b < bs.len() - 1 {
                assert(bs[b] == init[b]);
            }
        }
    }
}

/// Each generic parameter's bounds name traits in scope and are given
/// types that resolve, and its default type, if any, resolves.
pub open spec fn params_bounds_resolve(ix: IndexView, mi: int, scope: Seq<Seq<char>>, ps: Seq<GenericParamDef>) -> bool {
    forall|p: int| 0 <= p < ps.len() ==> bounds_resolve(ix, mi, scope, (#[trigger] ps[p]).bounds@)
        && (ps[p].default matches Some(t) ==> type_expr_resolves(ix, mi, scope, t))
}

proof fn lemma_generic_bounds_clean(ix: IndexView, mi: int, mn: Seq<char>, scope: Seq<Seq<char>>, ps: Seq<GenericParamDef>)
    requires
        generic_bounds_errors(ix, mi, mn, scope, ps).len() == 0,
    ensures
        params_bounds_resolve(ix, mi, scope, ps),
    decreases ps.len(),
{
    if ps.len() > 0 {
        let init = ps.drop_last();
        let last = ps.last();
        lemma_generic_bounds_clean(ix, mi, mn, scope, init);
        lemma_bounds_each_clean(ix, mi, mn, scope, last.bounds@);
        match last.default {
            Some(t) => lemma_type_expr_clean(ix, mi, mn, scope, t),
            None => {},
        }
        assert forall|p: int| 0 <= p < ps.len() implies bounds_resolve(ix, mi, scope, (#[trigger] ps[p]).bounds@)
            && (ps[p].default matches Some(t) ==> type_expr_resolves(ix, mi, scope, t)) by {
            if p < ps.len() - 1 {
                assert(ps[p] == init[p]);
            }
        }
    }
}

/// The type a parameter is declared with resolves.
pub open spec fn param_resolves(ix: IndexView, mi: int, scope: Seq<Seq<char>>, p: Param) -> bool {
    match p {
        Param::BorrowNamed { typ, .. } => type_expr_resolves(ix, mi, scope, typ),
        Param::MutBorrowNamed { typ, .. } => type_expr_resolves(ix, mi, scope, typ),
        Param::Named { typ, .. } => type_expr_resolves(ix, mi, scope, typ),
        _ => true,
    }
}

/// A method's parameter and return types resolve, and so do the bounds
/// and defaults of its own generic parameters, with those parameters in
/// scope too.
pub open spec fn method_types_resolve(
    ix: IndexView,
    mi: int,
    scope: Seq<Seq<char>>,
    generics: Seq<GenericParamDef>,
    params: Seq<Param>,
    ret: Option<TypeExpr>,
) -> bool {
    &&& forall|k: int| 0 <= k < params.len() ==> param_resolves(ix, mi, scope + param_names(generics), #[trigger] params[k])
    &&& ret matches Some(t) ==> type_expr_resolves(ix, mi, scope + param_names(generics), t)
    &&& params_bounds_resolve(ix, mi, scope + param_names(generics), generics)
}

proof fn lemma_params_clean(ix: IndexView, mi: int, mn: Seq<char>, scope: Seq<Seq<char>>, ps: Seq<Param>)
    requires
        params_errors(ix, mi, mn, scope, ps).len() == 0,
    ensures
        forall|k: int| 0 <= k < ps.len() ==> param_resolves(ix, mi, scope, #[trigger] ps[k]),
    decreases ps.len(),
{
    if ps.len() > 0 {
        let init = ps.drop_last();
        lemma_params_clean(ix, mi, mn, scope, init);
        assert(param_errors(ix, mi, mn, scope, ps.last()).len() == 0);
        match ps.last() {
            Param::BorrowNamed { typ, .. } => lemma_type_expr_clean(ix, mi, mn, scope, typ),
            Param::MutBorrowNamed { typ, .. } => lemma_type_expr_clean(ix, mi, mn, scope, typ),
            Param::Named { typ, .. } => lemma_type_expr_clean(ix, mi, mn, scope, typ),
            _ => {},
        }
        assert forall|k: int| 0 <= k < ps.len() implies param_resolves(ix, mi, scope, #[trigger] ps[k]) by {
            if k < ps.len() - 1 {
                assert(ps[k] == init[k]);
            }
        }
    }
}

proof fn lemma_method_types_clean(
    ix: IndexView,
    mi: int,
    mn: Seq<char>,
    scope: Seq<Seq<char>>,
    generics: Seq<GenericParamDef>,
    params: Seq<Param>,
    ret: Option<TypeExpr>,
)
    requires
        method_types_errors(ix, mi, mn, scope, generics, params, ret).len() == 0,
    ensures
        method_types_resolve(ix, mi, scope, generics, params, ret),
{
    let sc = scope + param_names(generics);
    lemma_params_clean(ix, mi, mn, sc, params);
    assert(opt_type_errors(ix, mi, mn, sc, ret).len() == 0);
    match ret {
        Some(t) => lemma_type_expr_clean(ix, mi, mn, sc, t),
        None => {},
    }
    lemma_generic_bounds_clean(ix, mi, mn, sc, generics);
}

proof fn lemma_signatures_types_clean(ix: IndexView, mi: int, mn: Seq<char>, scope: Seq<Seq<char>>, ds: Seq<MethodSig>)
    requires
        signatures_errors(ix, mi, mn, scope, ds).len() == 0,
    ensures
        forall|k: int| 0 <= k < ds.len() ==> method_types_resolve(
            ix,
            mi,
            scope,
            (#[trigger] ds[k]).generic_params@,
            ds[k].params@,
            ds[k].return_type,
        ),
    decreases ds.len(),
{
    if ds.len() > 0 {
        let init = ds.drop_last();
        let d = ds.last();
        lemma_signatures_types_clean(ix, mi, mn, scope, init);
        lemma_method_types_clean(ix, mi, mn, scope, d.generic_params@, d.params@, d.return_type);
        assert forall|k: int| 0 <= k < ds.len() implies method_types_resolve(
            ix,
            mi,
            scope,
            (#[trigger] ds[k]).generic_params@,
            ds[k].params@,
            ds[k].return_type,
        ) by {
            if k < ds.len() - 1 {
                assert(ds[k] == init[k]);
            }
        }
    }
}

proof fn lemma_method_defs_types_clean(ix: IndexView, mi: int, mn: Seq<char>, scope: Seq<Seq<char>>, ds: Seq<MethodDef>)
    requires
        method_defs_errors(ix, mi, mn, scope, ds).len() == 0,
    ensures
        forall|k: int| 0 <= k < ds.len() ==> method_types_resolve(
            ix,
            mi,
            scope,
            (#[trigger] ds[k]).generic_params@,
            ds[k].params@,
            ds[k].return_type,
        ),
    decreases ds.len(),
{
    if ds.len() > 0 {
        let init = ds.drop_last();
        let d = ds.last();
        lemma_method_defs_types_clean(ix, mi, mn, scope, init);
        lemma_method_types_clean(ix, mi, mn, scope, d.generic_params@, d.params@, d.return_type);
        assert forall|k: int| 0 <= k < ds.len() implies method_types_resolve(
            ix,
            mi,
            scope,
            (#[trigger] ds[k]).generic_params@,
            ds[k].params@,
            ds[k].return_type,
        ) by {
            if k < ds.len() - 1 {
                assert(ds[k] == init[k]);
            }
        }
    }
}

/// A trait declaration's supertraits and signatures resolve, with its
/// generic parameters in scope.
pub open spec fn decl_types_resolve(ix: IndexView, mi: int, td: TraitDeclDef) -> bool {
    let sc = param_names(td.generic_params@);
    &&& bounds_resolve(ix, mi, sc, td.super_traits@)
    &&& params_bounds_resolve(ix, mi, sc, td.generic_params@)
    &&& forall|k: int| 0 <= k < td.signatures@.len() ==> method_types_resolve(
        ix,
        mi,
        sc,
        (#[trigger] td.signatures@[k]).generic_params@,
        td.signatures@[k].params@,
        td.signatures@[k].return_type,
    )
}

/// A trait implementation names a trait in scope, and its type, its trait
/// arguments and its methods' types resolve, with its generic parameters
/// in scope.
pub open spec fn impl_types_resolve(ix: IndexView, mi: int, ti: TraitImplDef) -> bool {
    let sc = param_names(ti.generic_params@);
    &&& ix_trait_exists(ix, mi, ti.trait_name.0@)
    &&& params_bounds_resolve(ix, mi, sc, ti.generic_params@)
    &&& type_expr_resolves(ix, mi, sc, ti.typ)
    &&& forall|k: int| 0 <= k < ti.trait_args@.len() ==> type_expr_resolves(ix, mi, sc, #[trigger] ti.trait_args@[k])
    &&& forall|k: int| 0 <= k < ti.methods@.len() ==> method_types_resolve(
        ix,
        mi,
        sc,
        (#[trigger] ti.methods@[k]).generic_params@,
        ti.methods@[k].params@,
        ti.methods@[k].return_type,
    )
}

proof fn lemma_trait_decls_clean(ix: IndexView, mi: int, mn: Seq<char>, ds: Seq<TraitDeclDef>)
    requires
        trait_decls_errors(ix, mi, mn, ds).len() == 0,
    ensures
        forall|k: int| 0 <= k < ds.len() ==> decl_types_resolve(ix, mi, #[trigger] ds[k]),
    decreases ds.len(),
{
    if ds.len() > 0 {
        let init = ds.drop_last();
        let d = ds.last();
        let sc = param_names(d.generic_params@);
        lemma_trait_decls_clean(ix, mi, mn, init);
        lemma_bounds_each_clean(ix, mi, mn, sc, d.super_traits@);
        lemma_signatures_types_clean(ix, mi, mn, sc, d.signatures@);
        lemma_generic_bounds_clean(ix, mi, mn, sc, d.generic_params@);
        assert forall|k: int| 0 <= k < ds.len() implies decl_types_resolve(ix, mi, #[trigger] ds[k]) by {
            if k < ds.len() - 1 {
                assert(ds[k] == init[k]);
            }
        }
    }
}

proof fn lemma_trait_impls_clean(ix: IndexView, mi: int, mn: Seq<char>, ds: Seq<TraitImplDef>)
    requires
        trait_impls_errors(ix, mi, mn, ds).len() == 0,
    ensures
        forall|k: int| 0 <= k < ds.len() ==> impl_types_resolve(ix, mi, #[trigger] ds[k]),
    decreases ds.len(),
{
    if ds.len() > 0 {
        let init = ds.drop_last();
        let d = ds.last();
        let sc = param_names(d.generic_params@);
        lemma_trait_impls_clean(ix, mi, mn, init);
        lemma_type_expr_clean(ix, mi, mn, sc, d.typ);
        lemma_type_exprs_each_clean(ix, mi, mn, sc, d.trait_args@);
        lemma_method_defs_types_clean(ix, mi, mn, sc, d.methods@);
        lemma_generic_bounds_clean(ix, mi, mn, sc, d.generic_params@);
        assert forall|k: int| 0 <= k < ds.len() implies impl_types_resolve(ix, mi, #[trigger] ds[k]) by {
            if k < ds.len() - 1 {
                assert(ds[k] == init[k]);
            }
        }
    }
}

/// A foreign function's parameter and return types resolve.
pub open spec fn ffi_types_resolve(ix: IndexView, mi: int, f: FfiFunction) -> bool {
    &&& forall|k: int| 0 <= k < f.params@.len() ==> param_resolves(ix, mi, seq![], #[trigger] f.params@[k])
    &&& f.return_type matches Some(t) ==> type_expr_resolves(ix, mi, seq![], t)
}

proof fn lemma_ffi_functions_clean(ix: IndexView, mi: int, mn: Seq<char>, ds: Seq<FfiFunction>)
    requires
        ffi_functions_errors(ix, mi, mn, ds).len() == 0,
    ensures
        forall|k: int| 0 <= k < ds.len() ==> ffi_types_resolve(ix, mi, #[trigger] ds[k]),
    decreases ds.len(),
{
    if ds.len() > 0 {
        let init = ds.drop_last();
        let d = ds.last();
        lemma_ffi_functions_clean(ix, mi, mn, init);
        lemma_params_clean(ix, mi, mn, seq![], d.params@);
        assert(opt_type_errors(ix, mi, mn, seq![], d.return_type).len() == 0);
        match d.return_type {
            Some(t) => lemma_type_expr_clean(ix, mi, mn, seq![], t),
            None => {},
        }
        assert forall|k: int| 0 <= k < ds.len() implies ffi_types_resolve(ix, mi, #[trigger] ds[k]) by {
            if k < ds.len() - 1 {
                assert(ds[k] == init[k]);
            }
        }
    }
}

proof fn lemma_ffi_defs_clean(ix: IndexView, mi: int, mn: Seq<char>, ds: Seq<FfiDef>)
    requires
        ffi_defs_errors(ix, mi, mn, ds).len() == 0,
    ensures
        forall|k: int, f: int| 0 <= k < ds.len() && 0 <= f < ds[k].functions@.len() ==> ffi_types_resolve(
            ix,
            mi,
            #[trigger] ds[k].functions@[f],
        ),
    decreases ds.len(),
{
    if ds.len() > 0 {
        let init = ds.drop_last();
        lemma_ffi_defs_clean(ix, mi, mn, init);
        lemma_ffi_functions_clean(ix, mi, mn, ds.last().functions@);
        assert forall|k: int, f: int| 0 <= k < ds.len() && 0 <= f < ds[k].functions@.len() implies ffi_types_resolve(
            ix,
            mi,
            #[trigger] ds[k].functions@[f],
        ) by {
            if k < ds.len() - 1 {
                assert(ds[k] == init[k]);
            }
        }
    }
}

/// Every type that the module's structs' fields, enums' variants, the
/// definitions nested in them at any depth, newtypes, consts, trait
/// declarations, trait implementations and foreign functions name resolves
/// in it, each with the generic parameters of its definitions in scope;
/// every self-typed field names a type in scope; and each trait they name
/// is in scope.
pub open spec fn module_types_resolve(ix: IndexView, mi: int, m: ModuleDef) -> bool {
    &&& forall|k: int| 0 <= k < m.structs@.len() ==> struct_children_resolve(ix, mi, param_names((#[trigger] m.structs@[k]).generic_params@), m.structs@[k].children@)
        && params_bounds_resolve(ix, mi, param_names(m.structs@[k].generic_params@), m.structs@[k].generic_params@)
    &&& forall|k: int| 0 <= k < m.enums@.len() ==> enum_children_resolve(ix, mi, param_names((#[trigger] m.enums@[k]).generic_params@), m.enums@[k].children@)
        && params_bounds_resolve(ix, mi, param_names(m.enums@[k].generic_params@), m.enums@[k].generic_params@)
    &&& forall|k: int| 0 <= k < m.newtypes@.len() ==> type_expr_resolves(ix, mi, param_names((#[trigger] m.newtypes@[k]).generic_params@), m.newtypes@[k].wraps)
        && params_bounds_resolve(ix, mi, param_names(m.newtypes@[k].generic_params@), m.newtypes@[k].generic_params@)
    &&& forall|k: int| 0 <= k < m.consts@.len() ==> type_expr_resolves(ix, mi, seq![], (#[trigger] m.consts@[k]).typ)
    &&& forall|k: int| 0 <= k < m.trait_decls@.len() ==> decl_types_resolve(ix, mi, #[trigger] m.trait_decls@[k])
    &&& forall|k: int| 0 <= k < m.trait_impls@.len() ==> impl_types_resolve(ix, mi, #[trigger] m.trait_impls@[k])
    &&& forall|k: int, f: int| 0 <= k < m.ffi@.len() && 0 <= f < m.ffi@[k].functions@.len() ==> ffi_types_resolve(
        ix,
        mi,
        #[trigger] m.ffi@[k].functions@[f],
    )
}

/// In a program in which verification finds no problem, every type that
/// a struct's fields, an enum's variants, a definition nested in either (at
/// any depth), a newtype, a const, a trait declaration, a trait
/// implementation or a foreign function names resolves in its module: to
/// a primitive, a type the module defines or imports, or a generic
/// parameter in scope; every application there has as many arguments as
/// its constructor takes; every self-typed field's name is a type in scope
/// there; and every trait named there is in scope.
pub proof fn lemma_clean_program_types_resolve(ms: Seq<ModuleDef>)
    requires
        verify_spec(ms, index_of(ms)).len() == 0,
    ensures
        forall|mi: int| 0 <= mi < ms.len() ==> module_types_resolve(index_of(ms), mi, #[trigger] ms[mi]),
{
    let ix = index_of(ms);
    assert(type_graph_errors(ms, ix, ms.len()).len() == 0) by {
        assert(verify_spec(ms, ix).len() >= type_graph_errors(ms, ix, ms.len()).len());
    }
    lemma_type_graph_errors_clean(ms, ix, ms.len());
    assert forall|mi: int| 0 <= mi < ms.len() implies module_types_resolve(ix, mi, #[trigger] ms[mi]) by {
        lemma_module_types_clean(ix, mi, ms[mi]);
    }
}

proof fn lemma_module_types_clean(ix: IndexView, mi: int, m: ModuleDef)
    requires
        module_type_errors(ix, mi, m).len() == 0,
    ensures
        module_types_resolve(ix, mi, m),
{
    let mn = m.name.0@;
    lemma_struct_defs_clean(ix, mi, mn, m.structs@);
    lemma_enum_defs_clean(ix, mi, mn, m.enums@);
    lemma_newtype_defs_clean(ix, mi, mn, m.newtypes@);
    lemma_const_defs_clean(ix, mi, mn, m.consts@);
    lemma_trait_decls_clean(ix, mi, mn, m.trait_decls@);
    lemma_trait_impls_clean(ix, mi, mn, m.trait_impls@);
    lemma_ffi_defs_clean(ix, mi, mn, m.ffi@);
}

// ---------------------------------------------------------------------------
// The converse: where every type resolves, tier 2 reports nothing.

proof fn lemma_type_exprs_each_quiet(ix: IndexView, mi: int, mn: Seq<char>, scope: Seq<Seq<char>>, es: Seq<TypeExpr>)
    requires
        forall|k: int| 0 <= k < es.len() ==> type_expr_resolves(ix, mi, scope, #[trigger] es[k]),
    ensures
        type_exprs_errors(ix, mi, mn, scope, es).len() == 0,
    decreases es.len(),
{
    if es.len() > 0 {
        let init = es.drop_last();
        assert forall|k: int| 0 <= k < init.len() implies type_expr_resolves(ix, mi, scope, #[trigger] init[k]) by {
            assert(init[k] == es[k]);
        }
        lemma_type_exprs_each_quiet(ix, mi, mn, scope, init);
        assert(type_expr_resolves(ix, mi, scope, es[es.len() - 1]));
        lemma_type_expr_iff(ix, mi, mn, scope, es.last());
    }
}

proof fn lemma_fields_quiet(ix: IndexView, mi: int, mn: Seq<char>, scope: Seq<Seq<char>>, fs: Seq<TypedField>)
    requires
        forall|f: int| 0 <= f < fs.len() ==> type_expr_resolves(ix, mi, scope, (#[trigger] fs[f]).typ),
    ensures
        field_errors(ix, mi, mn, scope, fs).len() == 0,
    decreases fs.len(),
{
    if fs.len() > 0 {
        let init = fs.drop_last();
        assert forall|f: int| 0 <= f < init.len() implies type_expr_resolves(ix, mi, scope, (#[trigger] init[f]).typ) by {
            assert(init[f] == fs[f]);
        }
        lemma_fields_quiet(ix, mi, mn, scope, init);
        assert(type_expr_resolves(ix, mi, scope, fs[fs.len() - 1].typ));
        lemma_type_expr_iff(ix, mi, mn, scope, fs.last().typ);
    }
}

proof fn lemma_bounds_quiet(ix: IndexView, mi: int, mn: Seq<char>, scope: Seq<Seq<char>>, bs: Seq<TraitBound>)
    requires
        bounds_resolve(ix, mi, scope, bs),
    ensures
        trait_bounds_errors(ix, mi, mn, scope, bs).len() == 0,
    decreases bs.len(),
{
    if bs.len() > 0 {
        let init = bs.drop_last();
        assert forall|b: int| 0 <= b < init.len() implies ix_trait_exists(ix, mi, (#[trigger] init[b]).trait_name.0@)
            && forall|k: int| 0 <= k < init[b].args@.len() ==> type_expr_resolves(ix, mi, scope, #[trigger] init[b].args@[k]) by {
            assert(init[b] == bs[b]);
        }
        lemma_bounds_quiet(ix, mi, mn, scope, init);
        let last = bs.last();
        assert(last == bs[bs.len() - 1]);
        assert(ix_trait_exists(ix, mi, bs[bs.len() - 1].trait_name.0@));
        assert forall|k: int| 0 <= k < last.args@.len() implies type_expr_resolves(ix, mi, scope, #[trigger] last.args@[k]) by {
            assert(type_expr_resolves(ix, mi, scope, bs[bs.len() - 1].args@[k]));
        }
        lemma_type_exprs_each_quiet(ix, mi, mn, scope, last.args@);
        assert(trait_bound_errors(ix, mi, mn, scope, last).len() == 0);
    }
}

proof fn lemma_generic_bounds_quiet(ix: IndexView, mi: int, mn: Seq<char>, scope: Seq<Seq<char>>, ps: Seq<GenericParamDef>)
    requires
        params_bounds_resolve(ix, mi, scope, ps),
    ensures
        generic_bounds_errors(ix, mi, mn, scope, ps).len() == 0,
    decreases ps.len(),
{
    if ps.len() > 0 {
        let init = ps.drop_last();
        assert forall|p: int| 0 <= p < init.len() implies bounds_resolve(ix, mi, scope, (#[trigger] init[p]).bounds@)
            && (init[p].default matches Some(t) ==> type_expr_resolves(ix, mi, scope, t)) by {
            assert(init[p] == ps[p]);
        }
        lemma_generic_bounds_quiet(ix, mi, mn, scope, init);
        let last = ps.last();
        assert(last == ps[ps.len() - 1]);
        lemma_bounds_quiet(ix, mi, mn, scope, last.bounds@);
        match last.default {
            Some(t) => lemma_type_expr_iff(ix, mi, mn, scope, t),
            None => {},
        }
    }
}

proof fn lemma_struct_children_quiet(ix: IndexView, mi: int, mn: Seq<char>, scope: Seq<Seq<char>>, cs: Seq<StructChild>)
    requires
        struct_children_resolve(ix, mi, scope, cs),
    ensures
        struct_children_errors(ix, mi, mn, scope, cs).len() == 0,
    decreases cs,
{
    if cs.len() > 0 {
        lemma_struct_children_quiet(ix, mi, mn, scope, cs.drop_last());
        match cs.last() {
            StructChild::TypedField { typ, .. } => lemma_type_expr_iff(ix, mi, mn, scope, typ),
            StructChild::SelfTypedField { .. } => {},
            StructChild::NestedEnum(e) => {
                let sc = scope + param_names(e.generic_params@);
                lemma_enum_children_quiet(ix, mi, mn, sc, e.children@);
                lemma_generic_bounds_quiet(ix, mi, mn, sc, e.generic_params@);
            },
            StructChild::NestedStruct(d) => {
                let sc = scope + param_names(d.generic_params@);
                lemma_struct_children_quiet(ix, mi, mn, sc, d.children@);
                lemma_generic_bounds_quiet(ix, mi, mn, sc, d.generic_params@);
            },
        }
    }
}

proof fn lemma_enum_children_quiet(ix: IndexView, mi: int, mn: Seq<char>, scope: Seq<Seq<char>>, cs: Seq<EnumChild>)
    requires
        enum_children_resolve(ix, mi, scope, cs),
    ensures
        enum_children_errors(ix, mi, mn, scope, cs).len() == 0,
    decreases cs,
{
    if cs.len() > 0 {
        lemma_enum_children_quiet(ix, mi, mn, scope, cs.drop_last());
        match cs.last() {
            EnumChild::Variant { .. } => {},
            EnumChild::DataVariant { payload, .. } => lemma_type_expr_iff(ix, mi, mn, scope, payload),
            EnumChild::StructVariant { fields, .. } => lemma_fields_quiet(ix, mi, mn, scope, fields@),
            EnumChild::NestedEnum(e) => {
                let sc = scope + param_names(e.generic_params@);
                lemma_enum_children_quiet(ix, mi, mn, sc, e.children@);
                lemma_generic_bounds_quiet(ix, mi, mn, sc, e.generic_params@);
            },
            EnumChild::NestedStruct(d) => {
                let sc = scope + param_names(d.generic_params@);
                lemma_struct_children_quiet(ix, mi, mn, sc, d.children@);
                lemma_generic_bounds_quiet(ix, mi, mn, sc, d.generic_params@);
            },
        }
    }
}

proof fn lemma_params_quiet(ix: IndexView, mi: int, mn: Seq<char>, scope: Seq<Seq<char>>, ps: Seq<Param>)
    requires
        forall|k: int| 0 <= k < ps.len() ==> param_resolves(ix, mi, scope, #[trigger] ps[k]),
    ensures
        params_errors(ix, mi, mn, scope, ps).len() == 0,
    decreases ps.len(),
{
    if ps.len() > 0 {
        let init = ps.drop_last();
        assert forall|k: int| 0 <= k < init.len() implies param_resolves(ix, mi, scope, #[trigger] init[k]) by {
            assert(init[k] == ps[k]);
        }
        lemma_params_quiet(ix, mi, mn, scope, init);
        assert(param_resolves(ix, mi, scope, ps[ps.len() - 1]));
        match ps.last() {
            Param::BorrowNamed { typ, .. } => lemma_type_expr_iff(ix, mi, mn, scope, typ),
            Param::MutBorrowNamed { typ, .. } => lemma_type_expr_iff(ix, mi, mn, scope, typ),
            Param::Named { typ, .. } => lemma_type_expr_iff(ix, mi, mn, scope, typ),
            _ => {},
        }
    }
}

proof fn lemma_method_types_quiet(
    ix: IndexView,
    mi: int,
    mn: Seq<char>,
    scope: Seq<Seq<char>>,
    generics: Seq<GenericParamDef>,
    params: Seq<Param>,
    ret: Option<TypeExpr>,
)
    requires
        method_types_resolve(ix, mi, scope, generics, params, ret),
    ensures
        method_types_errors(ix, mi, mn, scope, generics, params, ret).len() == 0,
{
    let sc = scope + param_names(generics);
    lemma_params_quiet(ix, mi, mn, sc, params);
    match ret {
        Some(t) => lemma_type_expr_iff(ix, mi, mn, sc, t),
        None => {},
    }
    lemma_generic_bounds_quiet(ix, mi, mn, sc, generics);
}

proof fn lemma_signatures_quiet(ix: IndexView, mi: int, mn: Seq<char>, scope: Seq<Seq<char>>, ds: Seq<MethodSig>)
    requires
        forall|k: int| 0 <= k < ds.len() ==> method_types_resolve(
            ix,
            mi,
            scope,
            (#[trigger] ds[k]).generic_params@,
            ds[k].params@,
            ds[k].return_type,
        ),
    ensures
        signatures_errors(ix, mi, mn, scope, ds).len() == 0,
    decreases ds.len(),
{
    if ds.len() > 0 {
        let init = ds.drop_last();
        assert forall|k: int| 0 <= k < init.len() implies method_types_resolve(
            ix,
            mi,
            scope,
            (#[trigger] init[k]).generic_params@,
            init[k].params@,
            init[k].return_type,
        ) by {
            assert(init[k] == ds[k]);
        }
        lemma_signatures_quiet(ix, mi, mn, scope, init);
        let d = ds.last();
        assert(d == ds[ds.len() - 1]);
        lemma_method_types_quiet(ix, mi, mn, scope, d.generic_params@, d.params@, d.return_type);
    }
}

proof fn lemma_method_defs_quiet(ix: IndexView, mi: int, mn: Seq<char>, scope: Seq<Seq<char>>, ds: Seq<MethodDef>)
    requires
        forall|k: int| 0 <= k < ds.len() ==> method_types_resolve(
            ix,
            mi,
            scope,
            (#[trigger] ds[k]).generic_params@,
            ds[k].params@,
            ds[k].return_type,
        ),
    ensures
        method_defs_errors(ix, mi, mn, scope, ds).len() == 0,
    decreases ds.len(),
{
    if ds.len() > 0 {
        let init = ds.drop_last();
        assert forall|k: int| 0 <= k < init.len() implies method_types_resolve(
            ix,
            mi,
            scope,
            (#[trigger] init[k]).generic_params@,
            init[k].params@,
            init[k].return_type,
        ) by {
            assert(init[k] == ds[k]);
        }
        lemma_method_defs_quiet(ix, mi, mn, scope, init);
        let d = ds.last();
        assert(d == ds[ds.len() - 1]);
        lemma_method_types_quiet(ix, mi, mn, scope, d.generic_params@, d.params@, d.return_type);
    }
}

proof fn lemma_trait_decls_quiet(ix: IndexView, mi: int, mn: Seq<char>, ds: Seq<TraitDeclDef>)
    requires
        forall|k: int| 0 <= k < ds.len() ==> decl_types_resolve(ix, mi, #[trigger] ds[k]),
    ensures
        trait_decls_errors(ix, mi, mn, ds).len() == 0,
    decreases ds.len(),
{
    if ds.len() > 0 {
        let init = ds.drop_last();
        assert forall|k: int| 0 <= k < init.len() implies decl_types_resolve(ix, mi, #[trigger] init[k]) by {
            assert(init[k] == ds[k]);
        }
        lemma_trait_decls_quiet(ix, mi, mn, init);
        let d = ds.last();
        assert(decl_types_resolve(ix, mi, ds[ds.len() - 1]));
        let sc = param_names(d.generic_params@);
        lemma_bounds_quiet(ix, mi, mn, sc, d.super_traits@);
        lemma_signatures_quiet(ix, mi, mn, sc, d.signatures@);
        lemma_generic_bounds_quiet(ix, mi, mn, sc, d.generic_params@);
    }
}

proof fn lemma_trait_impls_quiet(ix: IndexView, mi: int, mn: Seq<char>, ds: Seq<TraitImplDef>)
    requires
        forall|k: int| 0 <= k < ds.len() ==> impl_types_resolve(ix, mi, #[trigger] ds[k]),
    ensures
        trait_impls_errors(ix, mi, mn, ds).len() == 0,
    decreases ds.len(),
{
    if ds.len() > 0 {
        let init = ds.drop_last();
        assert forall|k: int| 0 <= k < init.len() implies impl_types_resolve(ix, mi, #[trigger] init[k]) by {
            assert(init[k] == ds[k]);
        }
        lemma_trait_impls_quiet(ix, mi, mn, init);
        let d = ds.last();
        assert(impl_types_resolve(ix, mi, ds[ds.len() - 1]));
        let sc = param_names(d.generic_params@);
        lemma_type_expr_iff(ix, mi, mn, sc, d.typ);
        lemma_type_exprs_each_quiet(ix, mi, mn, sc, d.trait_args@);
        lemma_method_defs_quiet(ix, mi, mn, sc, d.methods@);
        lemma_generic_bounds_quiet(ix, mi, mn, sc, d.generic_params@);
    }
}

proof fn lemma_ffi_functions_quiet(ix: IndexView, mi: int, mn: Seq<char>, ds: Seq<FfiFunction>)
    requires
        forall|k: int| 0 <= k < ds.len() ==> ffi_types_resolve(ix, mi, #[trigger] ds[k]),
    ensures
        ffi_functions_errors(ix, mi, mn, ds).len() == 0,
    decreases ds.len(),
{
    if ds.len() > 0 {
        let init = ds.drop_last();
        assert forall|k: int| 0 <= k < init.len() implies ffi_types_resolve(ix, mi, #[trigger] init[k]) by {
            assert(init[k] == ds[k]);
        }
        lemma_ffi_functions_quiet(ix, mi, mn, init);
        let d = ds.last();
        assert(ffi_types_resolve(ix, mi, ds[ds.len() - 1]));
        lemma_params_quiet(ix, mi, mn, seq![], d.params@);
        match d.return_type {
            Some(t) => lemma_type_expr_iff(ix, mi, mn, seq![], t),
            None => {},
        }
    }
}

proof fn lemma_ffi_defs_quiet(ix: IndexView, mi: int, mn: Seq<char>, ds: Seq<FfiDef>)
    requires
        forall|k: int, f: int| 0 <= k < ds.len() && 0 <= f < ds[k].functions@.len() ==> ffi_types_resolve(
            ix,
            mi,
            #[trigger] ds[k].functions@[f],
        ),
    ensures
        ffi_defs_errors(ix, mi, mn, ds).len() == 0,
    decreases ds.len(),
{
    if ds.len() > 0 {
        let init = ds.drop_last();
        assert forall|k: int, f: int| 0 <= k < init.len() && 0 <= f < init[k].functions@.len() implies ffi_types_resolve(
            ix,
            mi,
            #[trigger] init[k].functions@[f],
        ) by {
            assert(init[k] == ds[k]);
        }
        lemma_ffi_defs_quiet(ix, mi, mn, init);
        let k = ds.len() - 1;
        assert(ds.last() == ds[k]);
        assert forall|f: int| 0 <= f < ds[k].functions@.len() implies ffi_types_resolve(ix, mi, #[trigger] ds[k].functions@[f]) by {}
        lemma_ffi_functions_quiet(ix, mi, mn, ds.last().functions@);
    }
}

proof fn lemma_struct_defs_quiet(ix: IndexView, mi: int, mn: Seq<char>, ds: Seq<StructDef>)
    requires
        forall|k: int| 0 <= k < ds.len() ==> struct_children_resolve(ix, mi, param_names((#[trigger] ds[k]).generic_params@), ds[k].children@)
            && params_bounds_resolve(ix, mi, param_names(ds[k].generic_params@), ds[k].generic_params@),
    ensures
        struct_defs_errors(ix, mi, mn, ds).len() == 0,
    decreases ds.len(),
{
    if ds.len() > 0 {
        let init = ds.drop_last();
        assert forall|k: int| 0 <= k < init.len() implies struct_children_resolve(ix, mi, param_names((#[trigger] init[k]).generic_params@), init[k].children@)
            && params_bounds_resolve(ix, mi, param_names(init[k].generic_params@), init[k].generic_params@) by {
            assert(init[k] == ds[k]);
        }
        lemma_struct_defs_quiet(ix, mi, mn, init);
        let d = ds.last();
        assert(d == ds[ds.len() - 1]);
        lemma_struct_children_quiet(ix, mi, mn, param_names(d.generic_params@), d.children@);
        lemma_generic_bounds_quiet(ix, mi, mn, param_names(d.generic_params@), d.generic_params@);
    }
}

proof fn lemma_enum_defs_quiet(ix: IndexView, mi: int, mn: Seq<char>, ds: Seq<EnumDef>)
    requires
        forall|k: int| 0 <= k < ds.len() ==> enum_children_resolve(ix, mi, param_names((#[trigger] ds[k]).generic_params@), ds[k].children@)
            && params_bounds_resolve(ix, mi, param_names(ds[k].generic_params@), ds[k].generic_params@),
    ensures
        enum_defs_errors(ix, mi, mn, ds).len() == 0,
    decreases ds.len(),
{
    if ds.len() > 0 {
        let init = ds.drop_last();
        assert forall|k: int| 0 <= k < init.len() implies enum_children_resolve(ix, mi, param_names((#[trigger] init[k]).generic_params@), init[k].children@)
            && params_bounds_resolve(ix, mi, param_names(init[k].generic_params@), init[k].generic_params@) by {
            assert(init[k] == ds[k]);
        }
        lemma_enum_defs_quiet(ix, mi, mn, init);
        let d = ds.last();
        assert(d == ds[ds.len() - 1]);
        lemma_enum_children_quiet(ix, mi, mn, param_names(d.generic_params@), d.children@);
        lemma_generic_bounds_quiet(ix, mi, mn, param_names(d.generic_params@), d.generic_params@);
    }
}

proof fn lemma_newtype_defs_quiet(ix: IndexView, mi: int, mn: Seq<char>, ds: Seq<NewtypeDef>)
    requires
        forall|k: int| 0 <= k < ds.len() ==> type_expr_resolves(ix, mi, param_names((#[trigger] ds[k]).generic_params@), ds[k].wraps)
            && params_bounds_resolve(ix, mi, param_names(ds[k].generic_params@), ds[k].generic_params@),
    ensures
        newtype_defs_errors(ix, mi, mn, ds).len() == 0,
    decreases ds.len(),
{
    if ds.len() > 0 {
        let init = ds.drop_last();
        assert forall|k: int| 0 <= k < init.len() implies type_expr_resolves(ix, mi, param_names((#[trigger] init[k]).generic_params@), init[k].wraps)
            && params_bounds_resolve(ix, mi, param_names(init[k].generic_params@), init[k].generic_params@) by {
            assert(init[k] == ds[k]);
        }
        lemma_newtype_defs_quiet(ix, mi, mn, init);
        let d = ds.last();
        assert(d == ds[ds.len() - 1]);
        lemma_type_expr_iff(ix, mi, mn, param_names(d.generic_params@), d.wraps);
        lemma_generic_bounds_quiet(ix, mi, mn, param_names(d.generic_params@), d.generic_params@);
    }
}

proof fn lemma_const_defs_quiet(ix: IndexView, mi: int, mn: Seq<char>, ds: Seq<ConstDef>)
    requires
        forall|k: int| 0 <= k < ds.len() ==> type_expr_resolves(ix, mi, seq![], (#[trigger] ds[k]).typ),
    ensures
        const_defs_errors(ix, mi, mn, ds).len() == 0,
    decreases ds.len(),
{
    if ds.len() > 0 {
        let init = ds.drop_last();
        assert forall|k: int| 0 <= k < init.len() implies type_expr_resolves(ix, mi, seq![], (#[trigger] init[k]).typ) by {
            assert(init[k] == ds[k]);
        }
        lemma_const_defs_quiet(ix, mi, mn, init);
        assert(type_expr_resolves(ix, mi, seq![], ds[ds.len() - 1].typ));
        lemma_type_expr_iff(ix, mi, mn, seq![], ds.last().typ);
    }
}

/// Tier 2 reports a problem only where a name does not resolve: in a
/// module all of whose definitions' types resolve (each with the generic
/// parameters of its definitions in scope, a generic enum's or struct's
/// own parameters included), the type graph check finds nothing.
pub proof fn lemma_resolving_module_has_no_type_problem(ix: IndexView, mi: int, m: ModuleDef)
    requires
        module_types_resolve(ix, mi, m),
    ensures
        module_type_errors(ix, mi, m).len() == 0,
{
    let mn = m.name.0@;
    lemma_struct_defs_quiet(ix, mi, mn, m.structs@);
    lemma_enum_defs_quiet(ix, mi, mn, m.enums@);
    lemma_newtype_defs_quiet(ix, mi, mn, m.newtypes@);
    lemma_const_defs_quiet(ix, mi, mn, m.consts@);
    lemma_trait_decls_quiet(ix, mi, mn, m.trait_decls@);
    lemma_trait_impls_quiet(ix, mi, mn, m.trait_impls@);
    lemma_ffi_defs_quiet(ix, mi, mn, m.ffi@);
}

proof fn lemma_type_graph_errors_quiet(ms: Seq<ModuleDef>, ix: IndexView, n: nat)
    requires
        n <= ms.len(),
        forall|k: int| 0 <= k < n ==> module_types_resolve(ix, k, #[trigger] ms[k]),
    ensures
        type_graph_errors(ms, ix, n).len() == 0,
    decreases n,
{
    if n > 0 {
        lemma_type_graph_errors_quiet(ms, ix, (n - 1) as nat);
        assert(module_types_resolve(ix, n - 1, ms[n - 1]));
        lemma_resolving_module_has_no_type_problem(ix, n - 1, ms[n - 1]);
    }
}

/// The type graph check of a program finds no problem exactly when, in
/// every module, every type its definitions name resolves.
pub proof fn lemma_type_graph_clean_iff_types_resolve(ms: Seq<ModuleDef>)
    ensures
        type_graph_errors(ms, index_of(ms), ms.len()).len() == 0
            <==> forall|mi: int| 0 <= mi < ms.len() ==> module_types_resolve(index_of(ms), mi, #[trigger] ms[mi]),
{
    let ix = index_of(ms);
    if type_graph_errors(ms, ix, ms.len()).len() == 0 {
        lemma_type_graph_errors_clean(ms, ix, ms.len());
        assert forall|mi: int| 0 <= mi < ms.len() implies module_types_resolve(ix, mi, #[trigger] ms[mi]) by {
            lemma_module_types_clean(ix, mi, ms[mi]);
        }
    }
    if forall|mi: int| 0 <= mi < ms.len() ==> module_types_resolve(ix, mi, #[trigger] ms[mi]) {
        lemma_type_graph_errors_quiet(ms, ix, ms.len());
    }
}

} // verus!
