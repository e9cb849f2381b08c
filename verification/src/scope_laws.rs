//! What verification promises of the scopes of a clean program beyond the
//! uniqueness of its top-level names: nested types stay clear of the
//! top-level names, every trait, implementation, signature and method
//! declares each generic parameter once, and private types stay out of
//! public interfaces and exports.

use vstd::prelude::*;

use crate::ast::{ConstDef, EnumChild, EnumDef, ExportItem, GenericParamDef, NewtypeDef, MethodDef, MethodSig, ModuleDef, StructChild, StructDef, TraitDeclDef, TraitImplDef, Visibility};
use crate::index::index_of;
use crate::laws::{fresh_each, lemma_generics_fresh, lemma_module_names_unique, lemma_scope_errors_clean, type_namespace};
use crate::verify::{
    const_def_names, const_scope_errors, enum_def_names, enum_generic_errors, generic_uniqueness_errors, newtype_def_names,
    newtype_generic_errors, newtype_scope_errors, struct_def_names, struct_generic_errors, trait_decl_names, trait_scope_errors,
    enum_scope_errors, export_visibility_errors, field_visibility_errors, impl_generic_errors, method_generic_errors, module_scope_errors,
    nested_enum_collisions, nested_struct_collisions, param_names, private_field_errors, private_signature_errors, private_type_names,
    scope_errors, sig_generic_errors, signature_ref_names, signatures_visibility_errors, struct_scope_errors, struct_visibility_errors,
    top_level_names, trait_generic_errors, trait_visibility_errors, type_ref_names, verify_spec,
};

verus! {

// ---------------------------------------------------------------------------
// Nested types and top-level names.

/// No type nested among an enum's children, at any depth, takes a name of
/// `top`.
pub open spec fn enum_nested_clear(cs: Seq<EnumChild>, top: Set<Seq<char>>) -> bool
    decreases cs,
{
    if cs.len() == 0 {
        true
    } else {
        enum_nested_clear(cs.drop_last(), top) && match cs.last() {
            EnumChild::NestedEnum(e) => !top.contains(e.name.0@) && enum_nested_clear(e.children@, top),
            EnumChild::NestedStruct(s) => !top.contains(s.name.0@) && struct_nested_clear(s.children@, top),
            _ => true,
        }
    }
}

/// No type nested among a struct's children, at any depth, takes a name of
/// `top`.
pub open spec fn struct_nested_clear(cs: Seq<StructChild>, top: Set<Seq<char>>) -> bool
    decreases cs,
{
    if cs.len() == 0 {
        true
    } else {
        struct_nested_clear(cs.drop_last(), top) && match cs.last() {
            StructChild::NestedEnum(e) => !top.contains(e.name.0@) && enum_nested_clear(e.children@, top),
            StructChild::NestedStruct(s) => !top.contains(s.name.0@) && struct_nested_clear(s.children@, top),
            _ => true,
        }
    }
}

proof fn lemma_enum_collisions_clean(mn: Seq<char>, cs: Seq<EnumChild>, top: Set<Seq<char>>)
    requires
        nested_enum_collisions(mn, cs, top).len() == 0,
    ensures
        enum_nested_clear(cs, top),
    decreases cs,
{
    if cs.len() > 0 {
        lemma_enum_collisions_clean(mn, cs.drop_last(), top);
        match cs.last() {
            EnumChild::NestedEnum(e) => lemma_enum_collisions_clean(mn, e.children@, top),
            EnumChild::NestedStruct(s) => lemma_struct_collisions_clean(mn, s.children@, top),
            _ => {},
        }
    }
}

proof fn lemma_struct_collisions_clean(mn: Seq<char>, cs: Seq<StructChild>, top: Set<Seq<char>>)
    requires
        nested_struct_collisions(mn, cs, top).len() == 0,
    ensures
        struct_nested_clear(cs, top),
    decreases cs,
{
    if cs.len() > 0 {
        lemma_struct_collisions_clean(mn, cs.drop_last(), top);
        match cs.last() {
            StructChild::NestedEnum(e) => lemma_enum_collisions_clean(mn, e.children@, top),
            StructChild::NestedStruct(s) => lemma_struct_collisions_clean(mn, s.children@, top),
            _ => {},
        }
    }
}

proof fn lemma_enum_scope_nested(mn: Seq<char>, top: Set<Seq<char>>, es: Seq<EnumDef>)
    requires
        enum_scope_errors(mn, top, es).len() == 0,
    ensures
        forall|k: int| 0 <= k < es.len() ==> enum_nested_clear((#[trigger] es[k]).children@, top),
    decreases es.len(),
{
    if es.len() > 0 {
        let init = es.drop_last();
        lemma_enum_scope_nested(mn, top, init);
        lemma_enum_collisions_clean(mn, es.last().children@, top);
        assert forall|k: int| 0 <= k < es.len() implies enum_nested_clear((#[trigger] es[k]).children@, top) by {
            if k < es.len() - 1 {
                assert(es[k] == init[k]);
            }
        }
    }
}

proof fn lemma_struct_scope_nested(mn: Seq<char>, base: Set<Seq<char>>, top: Set<Seq<char>>, ss: Seq<StructDef>)
    requires
        struct_scope_errors(mn, base, top, ss).len() == 0,
    ensures
        forall|k: int| 0 <= k < ss.len() ==> struct_nested_clear((#[trigger] ss[k]).children@, top),
    decreases ss.len(),
{
    if ss.len() > 0 {
        let init = ss.drop_last();
        lemma_struct_scope_nested(mn, base, top, init);
        lemma_struct_collisions_clean(mn, ss.last().children@, top);
        assert forall|k: int| 0 <= k < ss.len() implies struct_nested_clear((#[trigger] ss[k]).children@, top) by {
            if k < ss.len() - 1 {
                assert(ss[k] == init[k]);
            }
        }
    }
}

proof fn lemma_clean_program_scopes(ms: Seq<ModuleDef>)
    requires
        verify_spec(ms, index_of(ms)).len() == 0,
    ensures
        forall|mi: int| 0 <= mi < ms.len() ==> (#[trigger] module_scope_errors(ms[mi])).len() == 0,
{
    let ix = index_of(ms);
    assert(scope_errors(ms, ms.len()).len() == 0) by {
        assert(verify_spec(ms, ix).len() >= scope_errors(ms, ms.len()).len());
    }
    lemma_scope_errors_clean(ms, ms.len());
}

/// In a program in which verification finds no problem, no enum or struct
/// defined inside another, at any depth, takes a name of its module's top
/// level (an enum, struct, newtype or const defined there), wherever in
/// the module that name is declared.
pub proof fn lemma_clean_program_nested_names_clear(ms: Seq<ModuleDef>)
    requires
        verify_spec(ms, index_of(ms)).len() == 0,
    ensures
        forall|mi: int, k: int| 0 <= mi < ms.len() && 0 <= k < ms[mi].enums@.len()
            ==> enum_nested_clear((#[trigger] ms[mi].enums@[k]).children@, top_level_names(ms[mi])),
        forall|mi: int, k: int| 0 <= mi < ms.len() && 0 <= k < ms[mi].structs@.len()
            ==> struct_nested_clear((#[trigger] ms[mi].structs@[k]).children@, top_level_names(ms[mi])),
{
    lemma_clean_program_scopes(ms);
    assert forall|mi: int, k: int| 0 <= mi < ms.len() && 0 <= k < ms[mi].enums@.len()
        implies enum_nested_clear((#[trigger] ms[mi].enums@[k]).children@, top_level_names(ms[mi])) by {
        let m = ms[mi];
        assert(module_scope_errors(m).len() == 0);
        lemma_enum_scope_nested(m.name.0@, top_level_names(m), m.enums@);
    }
    assert forall|mi: int, k: int| 0 <= mi < ms.len() && 0 <= k < ms[mi].structs@.len()
        implies struct_nested_clear((#[trigger] ms[mi].structs@[k]).children@, top_level_names(ms[mi])) by {
        let m = ms[mi];
        assert(module_scope_errors(m).len() == 0);
        lemma_struct_scope_nested(m.name.0@, crate::verify::enum_def_names(m.enums@).to_set(), top_level_names(m), m.structs@);
    }
}

// ---------------------------------------------------------------------------
// Generic parameters of traits, implementations, signatures and methods.

proof fn lemma_sig_generics_clean(mn: Seq<char>, ss: Seq<MethodSig>)
    requires
        sig_generic_errors(mn, ss).len() == 0,
    ensures
        forall|k: int| 0 <= k < ss.len() ==> param_names((#[trigger] ss[k]).generic_params@).no_duplicates(),
    decreases ss.len(),
{
    if ss.len() > 0 {
        let init = ss.drop_last();
        lemma_sig_generics_clean(mn, init);
        lemma_generics_fresh(mn, ss.last().name.0@, ss.last().generic_params@);
        assert forall|k: int| 0 <= k < ss.len() implies param_names((#[trigger] ss[k]).generic_params@).no_duplicates() by {
            if k < ss.len() - 1 {
                assert(ss[k] == init[k]);
            }
        }
    }
}

proof fn lemma_method_generics_clean(mn: Seq<char>, ds: Seq<MethodDef>)
    requires
        method_generic_errors(mn, ds).len() == 0,
    ensures
        forall|k: int| 0 <= k < ds.len() ==> param_names((#[trigger] ds[k]).generic_params@).no_duplicates(),
    decreases ds.len(),
{
    if ds.len() > 0 {
        let init = ds.drop_last();
        lemma_method_generics_clean(mn, init);
        lemma_generics_fresh(mn, ds.last().name.0@, ds.last().generic_params@);
        assert forall|k: int| 0 <= k < ds.len() implies param_names((#[trigger] ds[k]).generic_params@).no_duplicates() by {
            if k < ds.len() - 1 {
                assert(ds[k] == init[k]);
            }
        }
    }
}

/// A trait declaration declares each generic parameter once, and so does
/// each of its signatures.
pub open spec fn decl_generics_unique(td: TraitDeclDef) -> bool {
    &&& param_names(td.generic_params@).no_duplicates()
    &&& forall|k: int| 0 <= k < td.signatures@.len() ==> param_names((#[trigger] td.signatures@[k]).generic_params@).no_duplicates()
}

/// A trait implementation declares each generic parameter once, and so
/// does each of its methods.
pub open spec fn impl_generics_unique(ti: TraitImplDef) -> bool {
    &&& param_names(ti.generic_params@).no_duplicates()
    &&& forall|k: int| 0 <= k < ti.methods@.len() ==> param_names((#[trigger] ti.methods@[k]).generic_params@).no_duplicates()
}

proof fn lemma_trait_generics_clean(mn: Seq<char>, ts: Seq<TraitDeclDef>)
    requires
        trait_generic_errors(mn, ts).len() == 0,
    ensures
        forall|k: int| 0 <= k < ts.len() ==> decl_generics_unique(#[trigger] ts[k]),
    decreases ts.len(),
{
    if ts.len() > 0 {
        let init = ts.drop_last();
        lemma_trait_generics_clean(mn, init);
        lemma_generics_fresh(mn, ts.last().name.0@, ts.last().generic_params@);
        lemma_sig_generics_clean(mn, ts.last().signatures@);
        assert forall|k: int| 0 <= k < ts.len() implies decl_generics_unique(#[trigger] ts[k]) by {
            if k < ts.len() - 1 {
                assert(ts[k] == init[k]);
            }
        }
    }
}

proof fn lemma_impl_generics_clean(mn: Seq<char>, ts: Seq<TraitImplDef>)
    requires
        impl_generic_errors(mn, ts).len() == 0,
    ensures
        forall|k: int| 0 <= k < ts.len() ==> impl_generics_unique(#[trigger] ts[k]),
    decreases ts.len(),
{
    if ts.len() > 0 {
        let init = ts.drop_last();
        lemma_impl_generics_clean(mn, init);
        lemma_generics_fresh(mn, ts.last().trait_name.0@, ts.last().generic_params@);
        lemma_method_generics_clean(mn, ts.last().methods@);
        assert forall|k: int| 0 <= k < ts.len() implies impl_generics_unique(#[trigger] ts[k]) by {
            if k < ts.len() - 1 {
                assert(ts[k] == init[k]);
            }
        }
    }
}

/// In a program in which verification finds no problem, no trait
/// declaration, trait implementation, signature or method declares one
/// generic parameter twice.
pub proof fn lemma_clean_program_member_generics_unique(ms: Seq<ModuleDef>)
    requires
        verify_spec(ms, index_of(ms)).len() == 0,
    ensures
        forall|mi: int, k: int| 0 <= mi < ms.len() && 0 <= k < ms[mi].trait_decls@.len()
            ==> decl_generics_unique(#[trigger] ms[mi].trait_decls@[k]),
        forall|mi: int, k: int| 0 <= mi < ms.len() && 0 <= k < ms[mi].trait_impls@.len()
            ==> impl_generics_unique(#[trigger] ms[mi].trait_impls@[k]),
{
    lemma_clean_program_scopes(ms);
    assert forall|mi: int, k: int| 0 <= mi < ms.len() && 0 <= k < ms[mi].trait_decls@.len()
        implies decl_generics_unique(#[trigger] ms[mi].trait_decls@[k]) by {
        let m = ms[mi];
        assert(module_scope_errors(m).len() == 0);
        lemma_trait_generics_clean(m.name.0@, m.trait_decls@);
    }
    assert forall|mi: int, k: int| 0 <= mi < ms.len() && 0 <= k < ms[mi].trait_impls@.len()
        implies impl_generics_unique(#[trigger] ms[mi].trait_impls@[k]) by {
        let m = ms[mi];
        assert(module_scope_errors(m).len() == 0);
        lemma_impl_generics_clean(m.name.0@, m.trait_impls@);
    }
}

// ---------------------------------------------------------------------------
// Private types stay out of public interfaces.

/// None of the names is a private type.
pub open spec fn clear_of(private: Set<Seq<char>>, names: Seq<Seq<char>>) -> bool {
    forall|i: int| 0 <= i < names.len() ==> !private.contains(#[trigger] names[i])
}

/// The module keeps its private types inside: no export names one, no
/// typed field of a public struct refers to one, and no signature of a
/// public trait refers to one in a parameter or return type.
pub open spec fn private_types_kept_inside(m: ModuleDef) -> bool {
    let private = private_type_names(m);
    &&& forall|e: int| 0 <= e < m.exports@.len() ==> match #[trigger] m.exports@[e] {
        ExportItem::Type_(n) => !private.contains(n.0@),
        ExportItem::Trait(_) => true,
    }
    &&& forall|k: int, c: int| 0 <= k < m.structs@.len() && m.structs@[k].visibility == Visibility::Public
        && 0 <= c < m.structs@[k].children@.len() ==> match #[trigger] m.structs@[k].children@[c] {
        StructChild::TypedField { typ, .. } => clear_of(private, type_ref_names(typ)),
        _ => true,
    }
    &&& forall|k: int, s: int| 0 <= k < m.trait_decls@.len() && m.trait_decls@[k].visibility == Visibility::Public
        && 0 <= s < m.trait_decls@[k].signatures@.len() ==> clear_of(
        private,
        signature_ref_names(#[trigger] m.trait_decls@[k].signatures@[s]),
    )
}

proof fn lemma_private_field_clean(mn: Seq<char>, private: Set<Seq<char>>, owner: Seq<char>, names: Seq<Seq<char>>)
    requires
        private_field_errors(mn, private, owner, names).len() == 0,
    ensures
        clear_of(private, names),
    decreases names.len(),
{
    if names.len() > 0 {
        let init = names.drop_last();
        lemma_private_field_clean(mn, private, owner, init);
        assert forall|i: int| 0 <= i < names.len() implies !private.contains(#[trigger] names[i]) by {
            if i < names.len() - 1 {
                assert(names[i] == init[i]);
            }
        }
    }
}

proof fn lemma_private_signature_clean(
    mn: Seq<char>,
    private: Set<Seq<char>>,
    owner: Seq<char>,
    method: Seq<char>,
    names: Seq<Seq<char>>,
)
    requires
        private_signature_errors(mn, private, owner, method, names).len() == 0,
    ensures
        clear_of(private, names),
    decreases names.len(),
{
    if names.len() > 0 {
        let init = names.drop_last();
        lemma_private_signature_clean(mn, private, owner, method, init);
        assert forall|i: int| 0 <= i < names.len() implies !private.contains(#[trigger] names[i]) by {
            if i < names.len() - 1 {
                assert(names[i] == init[i]);
            }
        }
    }
}

proof fn lemma_field_visibility_clean(mn: Seq<char>, private: Set<Seq<char>>, owner: Seq<char>, cs: Seq<StructChild>)
    requires
        field_visibility_errors(mn, private, owner, cs).len() == 0,
    ensures
        forall|c: int| 0 <= c < cs.len() ==> match #[trigger] cs[c] {
            StructChild::TypedField { typ, .. } => clear_of(private, type_ref_names(typ)),
            _ => true,
        },
    decreases cs.len(),
{
    if cs.len() > 0 {
        let init = cs.drop_last();
        lemma_field_visibility_clean(mn, private, owner, init);
        match cs.last() {
            StructChild::TypedField { typ, .. } => lemma_private_field_clean(mn, private, owner, type_ref_names(typ)),
            _ => {},
        }
        assert forall|c: int| 0 <= c < cs.len() implies match #[trigger] cs[c] {
            StructChild::TypedField { typ, .. } => clear_of(private, type_ref_names(typ)),
            _ => true,
        } by {
            if c < cs.len() - 1 {
                assert(cs[c] == init[c]);
            }
        }
    }
}

proof fn lemma_struct_visibility_clean(mn: Seq<char>, private: Set<Seq<char>>, ss: Seq<StructDef>)
    requires
        struct_visibility_errors(mn, private, ss).len() == 0,
    ensures
        forall|k: int, c: int| 0 <= k < ss.len() && ss[k].visibility == Visibility::Public && 0 <= c < ss[k].children@.len()
            ==> match #[trigger] ss[k].children@[c] {
            StructChild::TypedField { typ, .. } => clear_of(private, type_ref_names(typ)),
            _ => true,
        },
    decreases ss.len(),
{
    if ss.len() > 0 {
        let init = ss.drop_last();
        let last = ss.last();
        lemma_struct_visibility_clean(mn, private, init);
        if last.visibility == Visibility::Public {
            lemma_field_visibility_clean(mn, private, last.name.0@, last.children@);
        }
        assert forall|k: int, c: int| 0 <= k < ss.len() && ss[k].visibility == Visibility::Public && 0 <= c < ss[k].children@.len()
            implies match #[trigger] ss[k].children@[c] {
            StructChild::TypedField { typ, .. } => clear_of(private, type_ref_names(typ)),
            _ => true,
        } by {
            if k < ss.len() - 1 {
                assert(ss[k] == init[k]);
            }
        }
    }
}

proof fn lemma_signatures_visibility_clean(mn: Seq<char>, private: Set<Seq<char>>, owner: Seq<char>, ss: Seq<MethodSig>)
    requires
        signatures_visibility_errors(mn, private, owner, ss).len() == 0,
    ensures
        forall|s: int| 0 <= s < ss.len() ==> clear_of(private, signature_ref_names(#[trigger] ss[s])),
    decreases ss.len(),
{
    if ss.len() > 0 {
        let init = ss.drop_last();
        lemma_signatures_visibility_clean(mn, private, owner, init);
        lemma_private_signature_clean(mn, private, owner, ss.last().name.0@, signature_ref_names(ss.last()));
        assert forall|s: int| 0 <= s < ss.len() implies clear_of(private, signature_ref_names(#[trigger] ss[s])) by {
            if s < ss.len() - 1 {
                assert(ss[s] == init[s]);
            }
        }
    }
}

proof fn lemma_trait_visibility_clean(mn: Seq<char>, private: Set<Seq<char>>, ts: Seq<TraitDeclDef>)
    requires
        trait_visibility_errors(mn, private, ts).len() == 0,
    ensures
        forall|k: int, s: int| 0 <= k < ts.len() && ts[k].visibility == Visibility::Public && 0 <= s < ts[k].signatures@.len()
            ==> clear_of(private, signature_ref_names(#[trigger] ts[k].signatures@[s])),
    decreases ts.len(),
{
    if ts.len() > 0 {
        let init = ts.drop_last();
        let last = ts.last();
        lemma_trait_visibility_clean(mn, private, init);
        if last.visibility == Visibility::Public {
            lemma_signatures_visibility_clean(mn, private, last.name.0@, last.signatures@);
        }
        assert forall|k: int, s: int| 0 <= k < ts.len() && ts[k].visibility == Visibility::Public && 0 <= s < ts[k].signatures@.len()
            implies clear_of(private, signature_ref_names(#[trigger] ts[k].signatures@[s])) by {
            if k < ts.len() - 1 {
                assert(ts[k] == init[k]);
            }
        }
    }
}

proof fn lemma_export_visibility_clean(mn: Seq<char>, private: Set<Seq<char>>, es: Seq<ExportItem>)
    requires
        export_visibility_errors(mn, private, es).len() == 0,
    ensures
        forall|e: int| 0 <= e < es.len() ==> match #[trigger] es[e] {
            ExportItem::Type_(n) => !private.contains(n.0@),
            ExportItem::Trait(_) => true,
        },
    decreases es.len(),
{
    if es.len() > 0 {
        let init = es.drop_last();
        lemma_export_visibility_clean(mn, private, init);
        assert forall|e: int| 0 <= e < es.len() implies match #[trigger] es[e] {
            ExportItem::Type_(n) => !private.contains(n.0@),
            ExportItem::Trait(_) => true,
        } by {
            if e < es.len() - 1 {
                assert(es[e] == init[e]);
            } else {
                assert(es[e] == es.last());
            }
        }
    }
}

/// In a program in which verification finds no problem, every module keeps
/// its private types (its top-level enums, structs and newtypes declared
/// private) inside: no export names one, no typed field of a public struct
/// refers to one, and no parameter or return type of a public trait's
/// signatures refers to one.
pub proof fn lemma_clean_program_keeps_private_types_inside(ms: Seq<ModuleDef>)
    requires
        verify_spec(ms, index_of(ms)).len() == 0,
    ensures
        forall|mi: int| 0 <= mi < ms.len() ==> private_types_kept_inside(#[trigger] ms[mi]),
{
    lemma_clean_program_scopes(ms);
    assert forall|mi: int| 0 <= mi < ms.len() implies private_types_kept_inside(#[trigger] ms[mi]) by {
        let m = ms[mi];
        let mn = m.name.0@;
        let private = private_type_names(m);
        assert(module_scope_errors(m).len() == 0);
        lemma_export_visibility_clean(mn, private, m.exports@);
        lemma_struct_visibility_clean(mn, private, m.structs@);
        lemma_trait_visibility_clean(mn, private, m.trait_decls@);
    }
}

// ---------------------------------------------------------------------------
// The converse: where names are unique, nested types clear of the top
// level, generic parameters unique and private types kept inside, the
// scope check reports nothing.

/// The scope rules hold in a module: its enums, structs, newtypes and
/// consts have distinct names, and so do its traits; no nested type takes a
/// top-level name; no top-level enum, struct or newtype, trait, signature,
/// implementation or method declares a generic parameter twice; and its
/// private types stay out of exports and public interfaces.
pub open spec fn module_scopes_hold(m: ModuleDef) -> bool {
    &&& type_namespace(m).no_duplicates()
    &&& trait_decl_names(m.trait_decls@).no_duplicates()
    &&& forall|k: int| 0 <= k < m.enums@.len() ==> enum_nested_clear((#[trigger] m.enums@[k]).children@, top_level_names(m))
        && param_names(m.enums@[k].generic_params@).no_duplicates()
    &&& forall|k: int| 0 <= k < m.structs@.len() ==> struct_nested_clear((#[trigger] m.structs@[k]).children@, top_level_names(m))
        && param_names(m.structs@[k].generic_params@).no_duplicates()
    &&& forall|k: int| 0 <= k < m.newtypes@.len() ==> param_names((#[trigger] m.newtypes@[k]).generic_params@).no_duplicates()
    &&& forall|k: int| 0 <= k < m.trait_decls@.len() ==> decl_generics_unique(#[trigger] m.trait_decls@[k])
    &&& forall|k: int| 0 <= k < m.trait_impls@.len() ==> impl_generics_unique(#[trigger] m.trait_impls@[k])
    &&& private_types_kept_inside(m)
}

proof fn lemma_unique_fresh(base: Seq<Seq<char>>, names: Seq<Seq<char>>)
    requires
        (base + names).no_duplicates(),
    ensures
        fresh_each(base.to_set(), names),
{
    let c = base + names;
    assert forall|i: int| 0 <= i < names.len() implies !(base.to_set() + names.take(i).to_set()).contains(#[trigger] names[i]) by {
        assert(c[base.len() + i] == names[i]);
        if base.to_set().contains(names[i]) {
            let j = choose|j: int| 0 <= j < base.len() && base[j] == names[i];
            assert(c[j] == base[j]);
        }
        if names.take(i).to_set().contains(names[i]) {
            let j = choose|j: int| 0 <= j < names.take(i).len() && names.take(i)[j] == names[i];
            assert(c[base.len() + j] == names[j]);
        }
    }
}

proof fn lemma_fresh_init(base: Set<Seq<char>>, names: Seq<Seq<char>>)
    requires
        fresh_each(base, names),
        names.len() > 0,
    ensures
        fresh_each(base, names.drop_last()),
        !(base + names.drop_last().to_set()).contains(names.last()),
{
    let init = names.drop_last();
    assert forall|i: int| 0 <= i < init.len() implies !(base + init.take(i).to_set()).contains(#[trigger] init[i]) by {
        assert(init[i] == names[i]);
        assert(init.take(i) =~= names.take(i));
        assert(!(base + names.take(i).to_set()).contains(names[i]));
    }
    assert(names.take(names.len() - 1) =~= init);
    assert(!(base + names.take(names.len() - 1).to_set()).contains(names[names.len() - 1]));
}

proof fn lemma_enum_collisions_quiet(mn: Seq<char>, cs: Seq<EnumChild>, top: Set<Seq<char>>)
    requires
        enum_nested_clear(cs, top),
    ensures
        nested_enum_collisions(mn, cs, top).len() == 0,
    decreases cs,
{
    if cs.len() > 0 {
        lemma_enum_collisions_quiet(mn, cs.drop_last(), top);
        match cs.last() {
            EnumChild::NestedEnum(e) => lemma_enum_collisions_quiet(mn, e.children@, top),
            EnumChild::NestedStruct(s) => lemma_struct_collisions_quiet(mn, s.children@, top),
            _ => {},
        }
    }
}

proof fn lemma_struct_collisions_quiet(mn: Seq<char>, cs: Seq<StructChild>, top: Set<Seq<char>>)
    requires
        struct_nested_clear(cs, top),
    ensures
        nested_struct_collisions(mn, cs, top).len() == 0,
    decreases cs,
{
    if cs.len() > 0 {
        lemma_struct_collisions_quiet(mn, cs.drop_last(), top);
        match cs.last() {
            StructChild::NestedEnum(e) => lemma_enum_collisions_quiet(mn, e.children@, top),
            StructChild::NestedStruct(s) => lemma_struct_collisions_quiet(mn, s.children@, top),
            _ => {},
        }
    }
}

proof fn lemma_enum_scope_quiet(mn: Seq<char>, top: Set<Seq<char>>, es: Seq<EnumDef>)
    requires
        fresh_each(Set::empty(), enum_def_names(es)),
        forall|k: int| 0 <= k < es.len() ==> enum_nested_clear((#[trigger] es[k]).children@, top),
    ensures
        enum_scope_errors(mn, top, es).len() == 0,
    decreases es.len(),
{
    if es.len() > 0 {
        let init = es.drop_last();
        lemma_fresh_init(Set::empty(), enum_def_names(es));
        assert(enum_def_names(es).drop_last() =~= enum_def_names(init));
        assert(Set::<Seq<char>>::empty() + enum_def_names(init).to_set() =~= enum_def_names(init).to_set());
        assert forall|k: int| 0 <= k < init.len() implies enum_nested_clear((#[trigger] init[k]).children@, top) by {
            assert(init[k] == es[k]);
        }
        lemma_enum_scope_quiet(mn, top, init);
        assert(es.last() == es[es.len() - 1]);
        lemma_enum_collisions_quiet(mn, es.last().children@, top);
    }
}

proof fn lemma_struct_scope_quiet(mn: Seq<char>, base: Set<Seq<char>>, top: Set<Seq<char>>, ss: Seq<StructDef>)
    requires
        fresh_each(base, struct_def_names(ss)),
        forall|k: int| 0 <= k < ss.len() ==> struct_nested_clear((#[trigger] ss[k]).children@, top),
    ensures
        struct_scope_errors(mn, base, top, ss).len() == 0,
    decreases ss.len(),
{
    if ss.len() > 0 {
        let init = ss.drop_last();
        lemma_fresh_init(base, struct_def_names(ss));
        assert(struct_def_names(ss).drop_last() =~= struct_def_names(init));
        assert forall|k: int| 0 <= k < init.len() implies struct_nested_clear((#[trigger] init[k]).children@, top) by {
            assert(init[k] == ss[k]);
        }
        lemma_struct_scope_quiet(mn, base, top, init);
        assert(ss.last() == ss[ss.len() - 1]);
        lemma_struct_collisions_quiet(mn, ss.last().children@, top);
    }
}

proof fn lemma_newtype_scope_quiet(mn: Seq<char>, base: Set<Seq<char>>, ns: Seq<NewtypeDef>)
    requires
        fresh_each(base, newtype_def_names(ns)),
    ensures
        newtype_scope_errors(mn, base, ns).len() == 0,
    decreases ns.len(),
{
    if ns.len() > 0 {
        lemma_fresh_init(base, newtype_def_names(ns));
        assert(newtype_def_names(ns).drop_last() =~= newtype_def_names(ns.drop_last()));
        lemma_newtype_scope_quiet(mn, base, ns.drop_last());
    }
}

proof fn lemma_const_scope_quiet(mn: Seq<char>, base: Set<Seq<char>>, cs: Seq<ConstDef>)
    requires
        fresh_each(base, const_def_names(cs)),
    ensures
        const_scope_errors(mn, base, cs).len() == 0,
    decreases cs.len(),
{
    if cs.len() > 0 {
        lemma_fresh_init(base, const_def_names(cs));
        assert(const_def_names(cs).drop_last() =~= const_def_names(cs.drop_last()));
        lemma_const_scope_quiet(mn, base, cs.drop_last());
    }
}

proof fn lemma_trait_scope_quiet(mn: Seq<char>, ts: Seq<TraitDeclDef>)
    requires
        fresh_each(Set::empty(), trait_decl_names(ts)),
    ensures
        trait_scope_errors(mn, ts).len() == 0,
    decreases ts.len(),
{
    if ts.len() > 0 {
        lemma_fresh_init(Set::empty(), trait_decl_names(ts));
        assert(trait_decl_names(ts).drop_last() =~= trait_decl_names(ts.drop_last()));
        assert(Set::<Seq<char>>::empty() + trait_decl_names(ts.drop_last()).to_set() =~= trait_decl_names(ts.drop_last()).to_set());
        lemma_trait_scope_quiet(mn, ts.drop_last());
    }
}

proof fn lemma_generics_quiet(mn: Seq<char>, owner: Seq<char>, ps: Seq<GenericParamDef>)
    requires
        param_names(ps).no_duplicates(),
    ensures
        generic_uniqueness_errors(mn, owner, ps).len() == 0,
    decreases ps.len(),
{
    if ps.len() > 0 {
        lemma_unique_fresh(seq![], param_names(ps));
        assert(seq![] + param_names(ps) =~= param_names(ps));
        lemma_fresh_init(Seq::<Seq<char>>::empty().to_set(), param_names(ps));
        let init = ps.drop_last();
        assert(param_names(ps).drop_last() =~= param_names(init));
        assert(Seq::<Seq<char>>::empty().to_set() + param_names(init).to_set() =~= param_names(init).to_set());
        assert forall|i: int, j: int| 0 <= i < param_names(init).len() && 0 <= j < param_names(init).len() && i != j
            implies param_names(init)[i] != param_names(init)[j] by {
            assert(param_names(init)[i] == param_names(ps)[i] && param_names(init)[j] == param_names(ps)[j]);
        }
        lemma_generics_quiet(mn, owner, init);
    }
}

proof fn lemma_enum_generics_quiet(mn: Seq<char>, es: Seq<EnumDef>)
    requires
        forall|k: int| 0 <= k < es.len() ==> param_names((#[trigger] es[k]).generic_params@).no_duplicates(),
    ensures
        enum_generic_errors(mn, es).len() == 0,
    decreases es.len(),
{
    if es.len() > 0 {
        let init = es.drop_last();
        assert forall|k: int| 0 <= k < init.len() implies param_names((#[trigger] init[k]).generic_params@).no_duplicates() by {
            assert(init[k] == es[k]);
        }
        lemma_enum_generics_quiet(mn, init);
        assert(es.last() == es[es.len() - 1]);
        lemma_generics_quiet(mn, es.last().name.0@, es.last().generic_params@);
    }
}

proof fn lemma_struct_generics_quiet(mn: Seq<char>, ss: Seq<StructDef>)
    requires
        forall|k: int| 0 <= k < ss.len() ==> param_names((#[trigger] ss[k]).generic_params@).no_duplicates(),
    ensures
        struct_generic_errors(mn, ss).len() == 0,
    decreases ss.len(),
{
    if ss.len() > 0 {
        let init = ss.drop_last();
        assert forall|k: int| 0 <= k < init.len() implies param_names((#[trigger] init[k]).generic_params@).no_duplicates() by {
            assert(init[k] == ss[k]);
        }
        lemma_struct_generics_quiet(mn, init);
        assert(ss.last() == ss[ss.len() - 1]);
        lemma_generics_quiet(mn, ss.last().name.0@, ss.last().generic_params@);
    }
}

proof fn lemma_newtype_generics_quiet(mn: Seq<char>, ns: Seq<NewtypeDef>)
    requires
        forall|k: int| 0 <= k < ns.len() ==> param_names((#[trigger] ns[k]).generic_params@).no_duplicates(),
    ensures
        newtype_generic_errors(mn, ns).len() == 0,
    decreases ns.len(),
{
    if ns.len() > 0 {
        let init = ns.drop_last();
        assert forall|k: int| 0 <= k < init.len() implies param_names((#[trigger] init[k]).generic_params@).no_duplicates() by {
            assert(init[k] == ns[k]);
        }
        lemma_newtype_generics_quiet(mn, init);
        assert(ns.last() == ns[ns.len() - 1]);
        lemma_generics_quiet(mn, ns.last().name.0@, ns.last().generic_params@);
    }
}

proof fn lemma_sig_generics_quiet(mn: Seq<char>, ss: Seq<MethodSig>)
    requires
        forall|k: int| 0 <= k < ss.len() ==> param_names((#[trigger] ss[k]).generic_params@).no_duplicates(),
    ensures
        sig_generic_errors(mn, ss).len() == 0,
    decreases ss.len(),
{
    if ss.len() > 0 {
        let init = ss.drop_last();
        assert forall|k: int| 0 <= k < init.len() implies param_names((#[trigger] init[k]).generic_params@).no_duplicates() by {
            assert(init[k] == ss[k]);
        }
        lemma_sig_generics_quiet(mn, init);
        assert(ss.last() == ss[ss.len() - 1]);
        lemma_generics_quiet(mn, ss.last().name.0@, ss.last().generic_params@);
    }
}

proof fn lemma_method_generics_quiet(mn: Seq<char>, ds: Seq<MethodDef>)
    requires
        forall|k: int| 0 <= k < ds.len() ==> param_names((#[trigger] ds[k]).generic_params@).no_duplicates(),
    ensures
        method_generic_errors(mn, ds).len() == 0,
    decreases ds.len(),
{
    if ds.len() > 0 {
        let init = ds.drop_last();
        assert forall|k: int| 0 <= k < init.len() implies param_names((#[trigger] init[k]).generic_params@).no_duplicates() by {
            assert(init[k] == ds[k]);
        }
        lemma_method_generics_quiet(mn, init);
        assert(ds.last() == ds[ds.len() - 1]);
        lemma_generics_quiet(mn, ds.last().name.0@, ds.last().generic_params@);
    }
}

proof fn lemma_trait_generics_quiet(mn: Seq<char>, ts: Seq<TraitDeclDef>)
    requires
        forall|k: int| 0 <= k < ts.len() ==> decl_generics_unique(#[trigger] ts[k]),
    ensures
        trait_generic_errors(mn, ts).len() == 0,
    decreases ts.len(),
{
    if ts.len() > 0 {
        let init = ts.drop_last();
        assert forall|k: int| 0 <= k < init.len() implies decl_generics_unique(#[trigger] init[k]) by {
            assert(init[k] == ts[k]);
        }
        lemma_trait_generics_quiet(mn, init);
        let last = ts.last();
        assert(decl_generics_unique(ts[ts.len() - 1]));
        lemma_generics_quiet(mn, last.name.0@, last.generic_params@);
        lemma_sig_generics_quiet(mn, last.signatures@);
    }
}

proof fn lemma_impl_generics_quiet(mn: Seq<char>, ts: Seq<TraitImplDef>)
    requires
        forall|k: int| 0 <= k < ts.len() ==> impl_generics_unique(#[trigger] ts[k]),
    ensures
        impl_generic_errors(mn, ts).len() == 0,
    decreases ts.len(),
{
    if ts.len() > 0 {
        let init = ts.drop_last();
        assert forall|k: int| 0 <= k < init.len() implies impl_generics_unique(#[trigger] init[k]) by {
            assert(init[k] == ts[k]);
        }
        lemma_impl_generics_quiet(mn, init);
        let last = ts.last();
        assert(impl_generics_unique(ts[ts.len() - 1]));
        lemma_generics_quiet(mn, last.trait_name.0@, last.generic_params@);
        lemma_method_generics_quiet(mn, last.methods@);
    }
}

proof fn lemma_private_field_quiet(mn: Seq<char>, private: Set<Seq<char>>, owner: Seq<char>, names: Seq<Seq<char>>)
    requires
        clear_of(private, names),
    ensures
        private_field_errors(mn, private, owner, names).len() == 0,
    decreases names.len(),
{
    if names.len() > 0 {
        let init = names.drop_last();
        assert forall|i: int| 0 <= i < init.len() implies !private.contains(#[trigger] init[i]) by {
            assert(init[i] == names[i]);
        }
        lemma_private_field_quiet(mn, private, owner, init);
        assert(!private.contains(names[names.len() - 1]));
    }
}

proof fn lemma_private_signature_quiet(mn: Seq<char>, private: Set<Seq<char>>, owner: Seq<char>, method: Seq<char>, names: Seq<Seq<char>>)
    requires
        clear_of(private, names),
    ensures
        private_signature_errors(mn, private, owner, method, names).len() == 0,
    decreases names.len(),
{
    if names.len() > 0 {
        let init = names.drop_last();
        assert forall|i: int| 0 <= i < init.len() implies !private.contains(#[trigger] init[i]) by {
            assert(init[i] == names[i]);
        }
        lemma_private_signature_quiet(mn, private, owner, method, init);
        assert(!private.contains(names[names.len() - 1]));
    }
}

proof fn lemma_field_visibility_quiet(mn: Seq<char>, private: Set<Seq<char>>, owner: Seq<char>, cs: Seq<StructChild>)
    requires
        forall|c: int| 0 <= c < cs.len() ==> match #[trigger] cs[c] {
            StructChild::TypedField { typ, .. } => clear_of(private, type_ref_names(typ)),
            _ => true,
        },
    ensures
        field_visibility_errors(mn, private, owner, cs).len() == 0,
    decreases cs.len(),
{
    if cs.len() > 0 {
        let init = cs.drop_last();
        assert forall|c: int| 0 <= c < init.len() implies match #[trigger] init[c] {
            StructChild::TypedField { typ, .. } => clear_of(private, type_ref_names(typ)),
            _ => true,
        } by {
            assert(init[c] == cs[c]);
        }
        lemma_field_visibility_quiet(mn, private, owner, init);
        assert(cs.last() == cs[cs.len() - 1]);
        match cs.last() {
            StructChild::TypedField { typ, .. } => lemma_private_field_quiet(mn, private, owner, type_ref_names(typ)),
            _ => {},
        }
    }
}

proof fn lemma_struct_visibility_quiet(mn: Seq<char>, private: Set<Seq<char>>, ss: Seq<StructDef>)
    requires
        forall|k: int, c: int| 0 <= k < ss.len() && ss[k].visibility == Visibility::Public && 0 <= c < ss[k].children@.len()
            ==> match #[trigger] ss[k].children@[c] {
            StructChild::TypedField { typ, .. } => clear_of(private, type_ref_names(typ)),
            _ => true,
        },
    ensures
        struct_visibility_errors(mn, private, ss).len() == 0,
    decreases ss.len(),
{
    if ss.len() > 0 {
        let init = ss.drop_last();
        assert forall|k: int, c: int| 0 <= k < init.len() && init[k].visibility == Visibility::Public && 0 <= c < init[k].children@.len()
            implies match #[trigger] init[k].children@[c] {
            StructChild::TypedField { typ, .. } => clear_of(private, type_ref_names(typ)),
            _ => true,
        } by {
            assert(init[k] == ss[k]);
        }
        lemma_struct_visibility_quiet(mn, private, init);
        let k = ss.len() - 1;
        let last = ss.last();
        assert(last == ss[k]);
        if last.visibility == Visibility::Public {
            assert forall|c: int| 0 <= c < last.children@.len() implies match #[trigger] last.children@[c] {
                StructChild::TypedField { typ, .. } => clear_of(private, type_ref_names(typ)),
                _ => true,
            } by {
                assert(last.children@[c] == ss[k].children@[c]);
            }
            lemma_field_visibility_quiet(mn, private, last.name.0@, last.children@);
        }
    }
}

proof fn lemma_signatures_visibility_quiet(mn: Seq<char>, private: Set<Seq<char>>, owner: Seq<char>, ss: Seq<MethodSig>)
    requires
        forall|s: int| 0 <= s < ss.len() ==> clear_of(private, signature_ref_names(#[trigger] ss[s])),
    ensures
        signatures_visibility_errors(mn, private, owner, ss).len() == 0,
    decreases ss.len(),
{
    if ss.len() > 0 {
        let init = ss.drop_last();
        assert forall|s: int| 0 <= s < init.len() implies clear_of(private, signature_ref_names(#[trigger] init[s])) by {
            assert(init[s] == ss[s]);
        }
        lemma_signatures_visibility_quiet(mn, private, owner, init);
        assert(clear_of(private, signature_ref_names(ss[ss.len() - 1])));
        lemma_private_signature_quiet(mn, private, owner, ss.last().name.0@, signature_ref_names(ss.last()));
    }
}

proof fn lemma_trait_visibility_quiet(mn: Seq<char>, private: Set<Seq<char>>, ts: Seq<TraitDeclDef>)
    requires
        forall|k: int, s: int| 0 <= k < ts.len() && ts[k].visibility == Visibility::Public && 0 <= s < ts[k].signatures@.len()
            ==> clear_of(private, signature_ref_names(#[trigger] ts[k].signatures@[s])),
    ensures
        trait_visibility_errors(mn, private, ts).len() == 0,
    decreases ts.len(),
{
    if ts.len() > 0 {
        let init = ts.drop_last();
        assert forall|k: int, s: int| 0 <= k < init.len() && init[k].visibility == Visibility::Public && 0 <= s < init[k].signatures@.len()
            implies clear_of(private, signature_ref_names(#[trigger] init[k].signatures@[s])) by {
            assert(init[k] == ts[k]);
        }
        lemma_trait_visibility_quiet(mn, private, init);
        let k = ts.len() - 1;
        let last = ts.last();
        assert(last == ts[k]);
        if last.visibility == Visibility::Public {
            assert forall|s: int| 0 <= s < last.signatures@.len() implies clear_of(private, signature_ref_names(#[trigger] last.signatures@[s])) by {
                assert(last.signatures@[s] == ts[k].signatures@[s]);
            }
            lemma_signatures_visibility_quiet(mn, private, last.name.0@, last.signatures@);
        }
    }
}

proof fn lemma_export_visibility_quiet(mn: Seq<char>, private: Set<Seq<char>>, es: Seq<ExportItem>)
    requires
        forall|e: int| 0 <= e < es.len() ==> match #[trigger] es[e] {
            ExportItem::Type_(n) => !private.contains(n.0@),
            ExportItem::Trait(_) => true,
        },
    ensures
        export_visibility_errors(mn, private, es).len() == 0,
    decreases es.len(),
{
    if es.len() > 0 {
        let init = es.drop_last();
        assert forall|e: int| 0 <= e < init.len() implies match #[trigger] init[e] {
            ExportItem::Type_(n) => !private.contains(n.0@),
            ExportItem::Trait(_) => true,
        } by {
            assert(init[e] == es[e]);
        }
        lemma_export_visibility_quiet(mn, private, init);
        assert(es.last() == es[es.len() - 1]);
    }
}

/// The scope check of a module reports nothing exactly when the scope
/// rules hold in it.
pub proof fn lemma_module_scopes_clean_iff_hold(m: ModuleDef)
    ensures
        module_scope_errors(m).len() == 0 <==> module_scopes_hold(m),
{
    let mn = m.name.0@;
    let top = top_level_names(m);
    let private = private_type_names(m);
    let a = enum_def_names(m.enums@);
    let b = struct_def_names(m.structs@);
    let c = newtype_def_names(m.newtypes@);
    let d = const_def_names(m.consts@);
    assert((a + b).to_set() =~= a.to_set() + b.to_set()) by {
        vstd::seq_lib::seq_to_set_distributes_over_add(a, b);
    }
    assert((a + b + c).to_set() =~= a.to_set() + b.to_set() + c.to_set()) by {
        vstd::seq_lib::seq_to_set_distributes_over_add(a + b, c);
    }
    if module_scope_errors(m).len() == 0 {
        lemma_module_names_unique(m);
        lemma_enum_scope_nested(mn, top, m.enums@);
        lemma_struct_scope_nested(mn, a.to_set(), top, m.structs@);
        lemma_trait_generics_clean(mn, m.trait_decls@);
        lemma_impl_generics_clean(mn, m.trait_impls@);
        lemma_export_visibility_clean(mn, private, m.exports@);
        lemma_struct_visibility_clean(mn, private, m.structs@);
        lemma_trait_visibility_clean(mn, private, m.trait_decls@);
    }
    if module_scopes_hold(m) {
        let ns = type_namespace(m);
        assert(ns == a + b + c + d);
        assert((a + b + c) + d == ns);
        assert forall|i: int, j: int| 0 <= i < (a + b + c).len() && 0 <= j < (a + b + c).len() && i != j implies (a + b + c)[i] != (a + b + c)[j] by {
            assert(ns[i] == (a + b + c)[i] && ns[j] == (a + b + c)[j]);
        }
        assert forall|i: int, j: int| 0 <= i < (a + b).len() && 0 <= j < (a + b).len() && i != j implies (a + b)[i] != (a + b)[j] by {
            assert(ns[i] == (a + b)[i] && ns[j] == (a + b)[j]);
        }
        assert forall|i: int, j: int| 0 <= i < a.len() && 0 <= j < a.len() && i != j implies a[i] != a[j] by {
            assert(ns[i] == a[i] && ns[j] == a[j]);
        }
        lemma_unique_fresh(seq![], a);
        assert(seq![] + a =~= a);
        assert(Seq::<Seq<char>>::empty().to_set() =~= Set::<Seq<char>>::empty());
        lemma_unique_fresh(a, b);
        lemma_unique_fresh(a + b, c);
        lemma_unique_fresh(a + b + c, d);
        lemma_unique_fresh(seq![], trait_decl_names(m.trait_decls@));
        assert(seq![] + trait_decl_names(m.trait_decls@) =~= trait_decl_names(m.trait_decls@));
        assert forall|k: int| 0 <= k < m.enums@.len() implies enum_nested_clear((#[trigger] m.enums@[k]).children@, top) by {}
        assert forall|k: int| 0 <= k < m.structs@.len() implies struct_nested_clear((#[trigger] m.structs@[k]).children@, top) by {}
        lemma_enum_scope_quiet(mn, top, m.enums@);
        lemma_struct_scope_quiet(mn, a.to_set(), top, m.structs@);
        lemma_newtype_scope_quiet(mn, a.to_set() + b.to_set(), m.newtypes@);
        lemma_const_scope_quiet(mn, a.to_set() + b.to_set() + c.to_set(), m.consts@);
        lemma_trait_scope_quiet(mn, m.trait_decls@);
        assert forall|k: int| 0 <= k < m.enums@.len() implies param_names((#[trigger] m.enums@[k]).generic_params@).no_duplicates() by {}
        assert forall|k: int| 0 <= k < m.structs@.len() implies param_names((#[trigger] m.structs@[k]).generic_params@).no_duplicates() by {}
        lemma_enum_generics_quiet(mn, m.enums@);
        lemma_struct_generics_quiet(mn, m.structs@);
        lemma_newtype_generics_quiet(mn, m.newtypes@);
        lemma_trait_generics_quiet(mn, m.trait_decls@);
        lemma_impl_generics_quiet(mn, m.trait_impls@);
        lemma_export_visibility_quiet(mn, private, m.exports@);
        lemma_struct_visibility_quiet(mn, private, m.structs@);
        lemma_trait_visibility_quiet(mn, private, m.trait_decls@);
    }
}

proof fn lemma_scope_errors_quiet(ms: Seq<ModuleDef>, n: nat)
    requires
        n <= ms.len(),
        forall|mi: int| 0 <= mi < n ==> module_scopes_hold(#[trigger] ms[mi]),
    ensures
        scope_errors(ms, n).len() == 0,
    decreases n,
{
    if n > 0 {
        lemma_scope_errors_quiet(ms, (n - 1) as nat);
        assert(module_scopes_hold(ms[n - 1]));
        lemma_module_scopes_clean_iff_hold(ms[n - 1]);
    }
}

/// The scope check of a program reports nothing exactly when the scope
/// rules hold in every module.
pub proof fn lemma_scope_tier_clean_iff_scopes_hold(ms: Seq<ModuleDef>)
    ensures
        scope_errors(ms, ms.len()).len() == 0 <==> forall|mi: int| 0 <= mi < ms.len() ==> module_scopes_hold(#[trigger] ms[mi]),
{
    if scope_errors(ms, ms.len()).len() == 0 {
        lemma_scope_errors_clean(ms, ms.len());
        assert forall|mi: int| 0 <= mi < ms.len() implies module_scopes_hold(#[trigger] ms[mi]) by {
            assert(module_scope_errors(ms[mi]).len() == 0);
            lemma_module_scopes_clean_iff_hold(ms[mi]);
        }
    }
    if forall|mi: int| 0 <= mi < ms.len() ==> module_scopes_hold(#[trigger] ms[mi]) {
        lemma_scope_errors_quiet(ms, ms.len());
    }
}

} // verus!
