//! What verification promises of the trait implementations of a clean
//! program: each matches the declaration of its trait.

use vstd::prelude::*;

use crate::ast::{AssociatedTypeDef, AssociatedTypeImpl, ImportItem, MethodDef, MethodSig, ModuleDef, ModuleImport, TraitDeclDef, TraitImplDef};
use crate::index::{index_of, module_map, IndexView};
use crate::laws::{imports_unique, lemma_clean_program_links, lemma_clean_program_names_unique};
use crate::verify::{
    decl_via_imports, extra_method_errors, find_trait_decl_spec, first_signature, first_trait_decl, has_assoc_impl, has_method,
    has_signature, item_name, missing_assoc_errors, missing_method_errors, names_trait, self_kind_spec, signature_errors,
    signature_mismatch_errors, structure_errors, trait_decl_names, trait_impl_errors, trait_impls_structure_errors, verify_spec,
};

verus! {

/// A method agrees with its declared signature: as many parameters, a
/// return type exactly when the signature has one, and `self` taken the
/// same way.
pub open spec fn method_fits_signature(sig: MethodSig, method: MethodDef) -> bool {
    &&& method.params@.len() == sig.params@.len()
    &&& (method.return_type is Some) == (sig.return_type is Some)
    &&& (method.params@.len() > 0 && sig.params@.len() > 0 ==> self_kind_spec(method.params@[0]) == self_kind_spec(sig.params@[0]))
}

/// An implementation matches its trait's declaration: it provides each
/// declared method and no other, each agreeing with the first signature
/// of its name, and a type for each associated type without a default.
pub open spec fn impl_matches_decl(ti: TraitImplDef, decl: TraitDeclDef) -> bool {
    &&& forall|s: int| 0 <= s < decl.signatures@.len() ==> has_method(ti.methods@, (#[trigger] decl.signatures@[s]).name.0@)
    &&& forall|k: int| 0 <= k < ti.methods@.len() ==> has_signature(decl.signatures@, (#[trigger] ti.methods@[k]).name.0@)
        && method_fits_signature(first_signature(decl.signatures@, ti.methods@[k].name.0@).unwrap(), ti.methods@[k])
    &&& forall|a: int| 0 <= a < decl.associated_types@.len() && (#[trigger] decl.associated_types@[a]).default is None
        ==> has_assoc_impl(ti.associated_types@, decl.associated_types@[a].name.0@)
}

proof fn lemma_missing_clean(mn: Seq<char>, tn: Seq<char>, sigs: Seq<MethodSig>, methods: Seq<MethodDef>)
    requires
        missing_method_errors(mn, tn, sigs, methods).len() == 0,
    ensures
        forall|s: int| 0 <= s < sigs.len() ==> has_method(methods, (#[trigger] sigs[s]).name.0@),
    decreases sigs.len(),
{
    if sigs.len() > 0 {
        let init = sigs.drop_last();
        lemma_missing_clean(mn, tn, init, methods);
        assert forall|s: int| 0 <= s < sigs.len() implies has_method(methods, (#[trigger] sigs[s]).name.0@) by {
            if s < sigs.len() - 1 {
                assert(sigs[s] == init[s]);
            }
        }
    }
}

proof fn lemma_extra_clean(mn: Seq<char>, tn: Seq<char>, sigs: Seq<MethodSig>, methods: Seq<MethodDef>)
    requires
        extra_method_errors(mn, tn, sigs, methods).len() == 0,
    ensures
        forall|k: int| 0 <= k < methods.len() ==> has_signature(sigs, (#[trigger] methods[k]).name.0@),
    decreases methods.len(),
{
    if methods.len() > 0 {
        let init = methods.drop_last();
        lemma_extra_clean(mn, tn, sigs, init);
        assert forall|k: int| 0 <= k < methods.len() implies has_signature(sigs, (#[trigger] methods[k]).name.0@) by {
            if k < methods.len() - 1 {
                assert(methods[k] == init[k]);
            }
        }
    }
}

proof fn lemma_mismatch_clean(mn: Seq<char>, tn: Seq<char>, sig: MethodSig, method: MethodDef)
    requires
        signature_mismatch_errors(mn, tn, sig, method).len() == 0,
    ensures
        method_fits_signature(sig, method),
{
    assert(method.params.len() == method.params@.len() && sig.params.len() == sig.params@.len());
}

proof fn lemma_signatures_clean(mn: Seq<char>, tn: Seq<char>, sigs: Seq<MethodSig>, methods: Seq<MethodDef>)
    requires
        signature_errors(mn, tn, sigs, methods).len() == 0,
    ensures
        forall|k: int| 0 <= k < methods.len() ==> match first_signature(sigs, (#[trigger] methods[k]).name.0@) {
            Some(sig) => method_fits_signature(sig, methods[k]),
            None => true,
        },
    decreases methods.len(),
{
    if methods.len() > 0 {
        let init = methods.drop_last();
        lemma_signatures_clean(mn, tn, sigs, init);
        match first_signature(sigs, methods.last().name.0@) {
            Some(sig) => lemma_mismatch_clean(mn, tn, sig, methods.last()),
            None => {},
        }
        assert forall|k: int| 0 <= k < methods.len() implies match first_signature(sigs, (#[trigger] methods[k]).name.0@) {
            Some(sig) => method_fits_signature(sig, methods[k]),
            None => true,
        } by {
            if k < methods.len() - 1 {
                assert(methods[k] == init[k]);
            }
        }
    }
}

proof fn lemma_assoc_clean(mn: Seq<char>, tn: Seq<char>, ats: Seq<AssociatedTypeDef>, provided: Seq<AssociatedTypeImpl>)
    requires
        missing_assoc_errors(mn, tn, ats, provided).len() == 0,
    ensures
        forall|a: int| 0 <= a < ats.len() && (#[trigger] ats[a]).default is None ==> has_assoc_impl(provided, ats[a].name.0@),
    decreases ats.len(),
{
    if ats.len() > 0 {
        let init = ats.drop_last();
        lemma_assoc_clean(mn, tn, init, provided);
        assert forall|a: int| 0 <= a < ats.len() && (#[trigger] ats[a]).default is None implies has_assoc_impl(provided, ats[a].name.0@) by {
            if a < ats.len() - 1 {
                assert(ats[a] == init[a]);
            }
        }
    }
}

/// A signature is found for every name some signature has.
proof fn lemma_first_signature_found(sigs: Seq<MethodSig>, name: Seq<char>)
    requires
        has_signature(sigs, name),
    ensures
        first_signature(sigs, name) is Some,
    decreases sigs.len(),
{
    if sigs[0].name.0@ != name {
        let j = choose|j: int| 0 <= j < sigs.len() && (#[trigger] sigs[j]).name.0@ == name;
        assert(sigs.drop_first()[j - 1] == sigs[j]);
        lemma_first_signature_found(sigs.drop_first(), name);
    }
}

proof fn lemma_impl_clean(ms: Seq<ModuleDef>, ix: IndexView, m: ModuleDef, ti: TraitImplDef)
    requires
        trait_impl_errors(ms, ix, m, ti).len() == 0,
    ensures
        match find_trait_decl_spec(ms, ix, m, ti.trait_name.0@) {
            Some(decl) => impl_matches_decl(ti, decl),
            None => true,
        },
{
    let mn = m.name.0@;
    let tn = ti.trait_name.0@;
    match find_trait_decl_spec(ms, ix, m, tn) {
        Some(decl) => {
            let sigs = decl.signatures@;
            lemma_missing_clean(mn, tn, sigs, ti.methods@);
            lemma_extra_clean(mn, tn, sigs, ti.methods@);
            lemma_signatures_clean(mn, tn, sigs, ti.methods@);
            lemma_assoc_clean(mn, tn, decl.associated_types@, ti.associated_types@);
            assert forall|k: int| 0 <= k < ti.methods@.len() implies has_signature(sigs, (#[trigger] ti.methods@[k]).name.0@)
                && method_fits_signature(first_signature(sigs, ti.methods@[k].name.0@).unwrap(), ti.methods@[k]) by {
                lemma_first_signature_found(sigs, ti.methods@[k].name.0@);
            }
        },
        None => {},
    }
}

proof fn lemma_impls_clean(ms: Seq<ModuleDef>, ix: IndexView, m: ModuleDef, tis: Seq<TraitImplDef>)
    requires
        trait_impls_structure_errors(ms, ix, m, tis).len() == 0,
    ensures
        forall|t: int| 0 <= t < tis.len() ==> (#[trigger] trait_impl_errors(ms, ix, m, tis[t])).len() == 0,
    decreases tis.len(),
{
    if tis.len() > 0 {
        let init = tis.drop_last();
        lemma_impls_clean(ms, ix, m, init);
        assert forall|t: int| 0 <= t < tis.len() implies (#[trigger] trait_impl_errors(ms, ix, m, tis[t])).len() == 0 by {
            if t < tis.len() - 1 {
                assert(tis[t] == init[t]);
            }
        }
    }
}

proof fn lemma_structure_errors_clean(ms: Seq<ModuleDef>, ix: IndexView, n: nat)
    requires
        structure_errors(ms, ix, n).len() == 0,
        n <= ms.len(),
    ensures
        forall|k: int| 0 <= k < n ==> (#[trigger] trait_impls_structure_errors(ms, ix, ms[k], ms[k].trait_impls@)).len() == 0,
    decreases n,
{
    if n > 0 {
        lemma_structure_errors_clean(ms, ix, (n - 1) as nat);
    }
}

/// In a program in which verification finds no problem, every trait
/// implementation whose trait's declaration is found (in its module, else
/// through its imports) matches that declaration.
pub proof fn lemma_clean_program_impls_match(ms: Seq<ModuleDef>)
    requires
        verify_spec(ms, index_of(ms)).len() == 0,
    ensures
        forall|mi: int, t: int| 0 <= mi < ms.len() && 0 <= t < ms[mi].trait_impls@.len() ==> match find_trait_decl_spec(
            ms,
            index_of(ms),
            ms[mi],
            (#[trigger] ms[mi].trait_impls@[t]).trait_name.0@,
        ) {
            Some(decl) => impl_matches_decl(ms[mi].trait_impls@[t], decl),
            None => true,
        },
{
    let ix = index_of(ms);
    assert(structure_errors(ms, ix, ms.len()).len() == 0) by {
        assert(verify_spec(ms, ix).len() >= structure_errors(ms, ix, ms.len()).len());
    }
    lemma_structure_errors_clean(ms, ix, ms.len());
    assert forall|mi: int, t: int| 0 <= mi < ms.len() && 0 <= t < ms[mi].trait_impls@.len() implies match find_trait_decl_spec(
        ms,
        ix,
        ms[mi],
        (#[trigger] ms[mi].trait_impls@[t]).trait_name.0@,
    ) {
        Some(decl) => impl_matches_decl(ms[mi].trait_impls@[t], decl),
        None => true,
    } by {
        assert(trait_impls_structure_errors(ms, ix, ms[mi], ms[mi].trait_impls@).len() == 0);
        lemma_impls_clean(ms, ix, ms[mi], ms[mi].trait_impls@);
        assert(trait_impl_errors(ms, ix, ms[mi], ms[mi].trait_impls@[t]).len() == 0);
        lemma_impl_clean(ms, ix, ms[mi], ms[mi].trait_impls@[t]);
    }
}

/// Of traits with distinct names, the declaration named `t` is the one
/// found first.
proof fn lemma_first_trait_decl_at(tds: Seq<TraitDeclDef>, d: int)
    requires
        0 <= d < tds.len(),
        trait_decl_names(tds).no_duplicates(),
    ensures
        first_trait_decl(tds, tds[d].name.0@) == Some(tds[d]),
    decreases tds.len(),
{
    if d > 0 {
        assert(trait_decl_names(tds)[0] != trait_decl_names(tds)[d]);
        let rest = tds.drop_first();
        assert(trait_decl_names(rest) =~= trait_decl_names(tds).drop_first());
        assert(rest[d - 1] == tds[d]);
        lemma_first_trait_decl_at(rest, d - 1);
    }
}

proof fn lemma_first_trait_decl_none(tds: Seq<TraitDeclDef>, t: Seq<char>)
    requires
        forall|d: int| 0 <= d < tds.len() ==> (#[trigger] tds[d]).name.0@ != t,
    ensures
        first_trait_decl(tds, t) is None,
    decreases tds.len(),
{
    if tds.len() > 0 {
        assert(tds[0].name.0@ != t);
        let rest = tds.drop_first();
        assert forall|d: int| 0 <= d < rest.len() implies (#[trigger] rest[d]).name.0@ != t by {
            assert(rest[d] == tds[d + 1]);
        }
        lemma_first_trait_decl_none(rest, t);
    }
}

/// The search through the imports stops at the first import naming the
/// trait, when that import finds a declaration.
proof fn lemma_decl_via_import_at(ms: Seq<ModuleDef>, ix: IndexView, imps: Seq<ModuleImport>, t: Seq<char>, i: int, j: int, decl: TraitDeclDef)
    requires
        0 <= i < imps.len(),
        0 <= j < imps[i].names@.len(),
        imps[i].names@[j] matches ImportItem::Trait(x) && x.0@ == t,
        ix.modules.contains_key(imps[i].source.0@),
        first_trait_decl(ms[ix.modules[imps[i].source.0@] as int].trait_decls@, t) == Some(decl),
        forall|k: int| 0 <= k < i ==> !names_trait((#[trigger] imps[k]).names@, t),
    ensures
        decl_via_imports(ms, ix, imps, t) == Some(decl),
    decreases i,
{
    if i == 0 {
        assert(names_trait(imps[0].names@, t));
    } else {
        assert(!names_trait(imps[0].names@, t));
        let rest = imps.drop_first();
        assert(rest[i - 1] == imps[i]);
        assert forall|k: int| 0 <= k < i - 1 implies !names_trait((#[trigger] rest[k]).names@, t) by {
            assert(rest[k] == imps[k + 1]);
        }
        lemma_decl_via_import_at(ms, ix, rest, t, i - 1, j, decl);
    }
}

/// In a program in which verification finds no problem, every trait
/// implementation matches the declaration of its trait, wherever that is:
/// a declaration of that name in the implementation's own module; or,
/// where the module declares no trait of that name, the declaration of that
/// name in the module that any of its imports (whatever its position)
/// brings the trait from.
pub proof fn lemma_clean_program_impls_match_their_traits(ms: Seq<ModuleDef>)
    requires
        verify_spec(ms, index_of(ms)).len() == 0,
    ensures
        forall|mi: int, t: int, d: int| 0 <= mi < ms.len() && 0 <= t < ms[mi].trait_impls@.len() && 0 <= d < ms[mi].trait_decls@.len()
            && #[trigger] ms[mi].trait_decls@[d].name.0@ == (#[trigger] ms[mi].trait_impls@[t]).trait_name.0@
            ==> impl_matches_decl(ms[mi].trait_impls@[t], ms[mi].trait_decls@[d]),
        forall|mi: int, t: int, i: int, j: int, d: int|
            0 <= mi < ms.len() && 0 <= t < ms[mi].trait_impls@.len() && 0 <= i < ms[mi].imports@.len()
            && 0 <= j < ms[mi].imports@[i].names@.len()
            && (forall|e: int| 0 <= e < ms[mi].trait_decls@.len() ==> (#[trigger] ms[mi].trait_decls@[e]).name.0@
                != ms[mi].trait_impls@[t].trait_name.0@)
            && (#[trigger] ms[mi].imports@[i].names@[j] matches ImportItem::Trait(x) && x.0@ == (#[trigger] ms[mi].trait_impls@[t]).trait_name.0@)
            && module_map(ms).contains_key(ms[mi].imports@[i].source.0@)
            && 0 <= d < ms[module_map(ms)[ms[mi].imports@[i].source.0@] as int].trait_decls@.len()
            && #[trigger] ms[module_map(ms)[ms[mi].imports@[i].source.0@] as int].trait_decls@[d].name.0@ == ms[mi].trait_impls@[t].trait_name.0@
            ==> impl_matches_decl(ms[mi].trait_impls@[t], ms[module_map(ms)[ms[mi].imports@[i].source.0@] as int].trait_decls@[d]),
{
    let ix = index_of(ms);
    lemma_clean_program_impls_match(ms);
    lemma_clean_program_links(ms);
    lemma_clean_program_names_unique(ms);
    crate::verify::lemma_built_index_fits(ms);
    assert forall|mi: int, t: int, d: int| 0 <= mi < ms.len() && 0 <= t < ms[mi].trait_impls@.len() && 0 <= d < ms[mi].trait_decls@.len()
        && #[trigger] ms[mi].trait_decls@[d].name.0@ == (#[trigger] ms[mi].trait_impls@[t]).trait_name.0@
        implies impl_matches_decl(ms[mi].trait_impls@[t], ms[mi].trait_decls@[d]) by {
        assert(crate::laws::type_namespace(ms[mi]).no_duplicates());
        assert(trait_decl_names(ms[mi].trait_decls@).no_duplicates());
        lemma_first_trait_decl_at(ms[mi].trait_decls@, d);
    }
    assert forall|mi: int, t: int, i: int, j: int, d: int|
        0 <= mi < ms.len() && 0 <= t < ms[mi].trait_impls@.len() && 0 <= i < ms[mi].imports@.len()
        && 0 <= j < ms[mi].imports@[i].names@.len()
        && (forall|e: int| 0 <= e < ms[mi].trait_decls@.len() ==> (#[trigger] ms[mi].trait_decls@[e]).name.0@
            != ms[mi].trait_impls@[t].trait_name.0@)
        && (#[trigger] ms[mi].imports@[i].names@[j] matches ImportItem::Trait(x) && x.0@ == (#[trigger] ms[mi].trait_impls@[t]).trait_name.0@)
        && module_map(ms).contains_key(ms[mi].imports@[i].source.0@)
        && 0 <= d < ms[module_map(ms)[ms[mi].imports@[i].source.0@] as int].trait_decls@.len()
        && #[trigger] ms[module_map(ms)[ms[mi].imports@[i].source.0@] as int].trait_decls@[d].name.0@ == ms[mi].trait_impls@[t].trait_name.0@
        implies impl_matches_decl(ms[mi].trait_impls@[t], ms[module_map(ms)[ms[mi].imports@[i].source.0@] as int].trait_decls@[d]) by {
        let m = ms[mi];
        let tn = m.trait_impls@[t].trait_name.0@;
        let imps = m.imports@;
        let s = module_map(ms)[imps[i].source.0@] as int;
        assert(0 <= s < ms.len());
        let decl = ms[s].trait_decls@[d];
        assert(crate::laws::type_namespace(ms[s]).no_duplicates());
        assert(trait_decl_names(ms[s].trait_decls@).no_duplicates());
        lemma_first_trait_decl_at(ms[s].trait_decls@, d);
        lemma_first_trait_decl_none(m.trait_decls@, tn);
        assert(item_name(imps[i].names@[j]) == tn);
        assert forall|k: int| 0 <= k < i implies !names_trait((#[trigger] imps[k]).names@, tn) by {
            if names_trait(imps[k].names@, tn) {
                let l = choose|l: int| 0 <= l < imps[k].names@.len() && (#[trigger] imps[k].names@[l] matches ImportItem::Trait(y) && y.0@ == tn);
                assert(item_name(ms[mi].imports@[k].names@[l]) == tn);
                assert(item_name(ms[mi].imports@[k].names@[l]) != item_name(ms[mi].imports@[i].names@[j]));
            }
        }
        lemma_decl_via_import_at(ms, ix, imps, tn, i, j, decl);
        assert(find_trait_decl_spec(ms, ix, m, tn) == Some(decl));
    }
}

// ---------------------------------------------------------------------------
// The converse: an implementation that matches its declaration is not
// reported.

proof fn lemma_missing_quiet(mn: Seq<char>, tn: Seq<char>, sigs: Seq<MethodSig>, methods: Seq<MethodDef>)
    requires
        forall|s: int| 0 <= s < sigs.len() ==> has_method(methods, (#[trigger] sigs[s]).name.0@),
    ensures
        missing_method_errors(mn, tn, sigs, methods).len() == 0,
    decreases sigs.len(),
{
    if sigs.len() > 0 {
        let init = sigs.drop_last();
        assert forall|s: int| 0 <= s < init.len() implies has_method(methods, (#[trigger] init[s]).name.0@) by {
            assert(init[s] == sigs[s]);
        }
        lemma_missing_quiet(mn, tn, init, methods);
        assert(has_method(methods, sigs[sigs.len() - 1].name.0@));
    }
}

proof fn lemma_extra_quiet(mn: Seq<char>, tn: Seq<char>, sigs: Seq<MethodSig>, methods: Seq<MethodDef>)
    requires
        forall|k: int| 0 <= k < methods.len() ==> has_signature(sigs, (#[trigger] methods[k]).name.0@),
    ensures
        extra_method_errors(mn, tn, sigs, methods).len() == 0,
    decreases methods.len(),
{
    if methods.len() > 0 {
        let init = methods.drop_last();
        assert forall|k: int| 0 <= k < init.len() implies has_signature(sigs, (#[trigger] init[k]).name.0@) by {
            assert(init[k] == methods[k]);
        }
        lemma_extra_quiet(mn, tn, sigs, init);
        assert(has_signature(sigs, methods[methods.len() - 1].name.0@));
    }
}

proof fn lemma_signatures_quiet(mn: Seq<char>, tn: Seq<char>, sigs: Seq<MethodSig>, methods: Seq<MethodDef>)
    requires
        forall|k: int| 0 <= k < methods.len() ==> has_signature(sigs, (#[trigger] methods[k]).name.0@)
            && method_fits_signature(first_signature(sigs, methods[k].name.0@).unwrap(), methods[k]),
    ensures
        signature_errors(mn, tn, sigs, methods).len() == 0,
    decreases methods.len(),
{
    if methods.len() > 0 {
        let init = methods.drop_last();
        assert forall|k: int| 0 <= k < init.len() implies has_signature(sigs, (#[trigger] init[k]).name.0@)
            && method_fits_signature(first_signature(sigs, init[k].name.0@).unwrap(), init[k]) by {
            assert(init[k] == methods[k]);
        }
        lemma_signatures_quiet(mn, tn, sigs, init);
        let last = methods.last();
        assert(last == methods[methods.len() - 1]);
        assert(method_fits_signature(first_signature(sigs, last.name.0@).unwrap(), last));
        match first_signature(sigs, last.name.0@) {
            Some(sig) => {
                assert(last.params.len() == last.params@.len() && sig.params.len() == sig.params@.len());
                assert(signature_mismatch_errors(mn, tn, sig, last).len() == 0);
            },
            None => {},
        }
    }
}

proof fn lemma_assoc_quiet(mn: Seq<char>, tn: Seq<char>, ats: Seq<AssociatedTypeDef>, provided: Seq<AssociatedTypeImpl>)
    requires
        forall|a: int| 0 <= a < ats.len() && (#[trigger] ats[a]).default is None ==> has_assoc_impl(provided, ats[a].name.0@),
    ensures
        missing_assoc_errors(mn, tn, ats, provided).len() == 0,
    decreases ats.len(),
{
    if ats.len() > 0 {
        let init = ats.drop_last();
        assert forall|a: int| 0 <= a < init.len() && (#[trigger] init[a]).default is None implies has_assoc_impl(provided, init[a].name.0@) by {
            assert(init[a] == ats[a]);
        }
        lemma_assoc_quiet(mn, tn, init, provided);
        assert(ats.last() == ats[ats.len() - 1]);
    }
}

proof fn lemma_impl_quiet(ms: Seq<ModuleDef>, ix: IndexView, m: ModuleDef, ti: TraitImplDef)
    requires
        match find_trait_decl_spec(ms, ix, m, ti.trait_name.0@) {
            Some(decl) => impl_matches_decl(ti, decl),
            None => true,
        },
    ensures
        trait_impl_errors(ms, ix, m, ti).len() == 0,
{
    let mn = m.name.0@;
    let tn = ti.trait_name.0@;
    match find_trait_decl_spec(ms, ix, m, tn) {
        Some(decl) => {
            lemma_missing_quiet(mn, tn, decl.signatures@, ti.methods@);
            lemma_extra_quiet(mn, tn, decl.signatures@, ti.methods@);
            lemma_signatures_quiet(mn, tn, decl.signatures@, ti.methods@);
            lemma_assoc_quiet(mn, tn, decl.associated_types@, ti.associated_types@);
        },
        None => {},
    }
}

proof fn lemma_impls_quiet(ms: Seq<ModuleDef>, ix: IndexView, m: ModuleDef, tis: Seq<TraitImplDef>)
    requires
        forall|t: int| 0 <= t < tis.len() ==> match find_trait_decl_spec(ms, ix, m, (#[trigger] tis[t]).trait_name.0@) {
            Some(decl) => impl_matches_decl(tis[t], decl),
            None => true,
        },
    ensures
        trait_impls_structure_errors(ms, ix, m, tis).len() == 0,
    decreases tis.len(),
{
    if tis.len() > 0 {
        let init = tis.drop_last();
        assert forall|t: int| 0 <= t < init.len() implies match find_trait_decl_spec(ms, ix, m, (#[trigger] init[t]).trait_name.0@) {
            Some(decl) => impl_matches_decl(init[t], decl),
            None => true,
        } by {
            assert(init[t] == tis[t]);
        }
        lemma_impls_quiet(ms, ix, m, init);
        let k = tis.len() - 1;
        assert(tis.last() == tis[k]);
        lemma_impl_quiet(ms, ix, m, tis.last());
    }
}

proof fn lemma_structure_errors_quiet(ms: Seq<ModuleDef>, ix: IndexView, n: nat)
    requires
        n <= ms.len(),
        forall|mi: int, t: int| 0 <= mi < n && 0 <= t < ms[mi].trait_impls@.len() ==> match find_trait_decl_spec(
            ms,
            ix,
            ms[mi],
            (#[trigger] ms[mi].trait_impls@[t]).trait_name.0@,
        ) {
            Some(decl) => impl_matches_decl(ms[mi].trait_impls@[t], decl),
            None => true,
        },
    ensures
        structure_errors(ms, ix, n).len() == 0,
    decreases n,
{
    if n > 0 {
        lemma_structure_errors_quiet(ms, ix, (n - 1) as nat);
        let m = ms[n - 1];
        assert forall|t: int| 0 <= t < m.trait_impls@.len() implies match find_trait_decl_spec(ms, ix, m, (#[trigger] m.trait_impls@[t]).trait_name.0@) {
            Some(decl) => impl_matches_decl(m.trait_impls@[t], decl),
            None => true,
        } by {
            assert(m.trait_impls@[t] == ms[n - 1].trait_impls@[t]);
        }
        lemma_impls_quiet(ms, ix, m, m.trait_impls@);
    }
}

/// The trait-structure check reports nothing exactly when every trait
/// implementation whose trait's declaration is found (in its module, else
/// through its imports) matches that declaration: it provides each
/// declared method and no other, each agreeing with its signature, and a
/// type for each associated type without a default.
pub proof fn lemma_structure_tier_clean_iff_impls_match(ms: Seq<ModuleDef>)
    ensures
        structure_errors(ms, index_of(ms), ms.len()).len() == 0 <==> forall|mi: int, t: int|
            0 <= mi < ms.len() && 0 <= t < ms[mi].trait_impls@.len() ==> match find_trait_decl_spec(
            ms,
            index_of(ms),
            ms[mi],
            (#[trigger] ms[mi].trait_impls@[t]).trait_name.0@,
        ) {
            Some(decl) => impl_matches_decl(ms[mi].trait_impls@[t], decl),
            None => true,
        },
{
    let ix = index_of(ms);
    if structure_errors(ms, ix, ms.len()).len() == 0 {
        lemma_structure_errors_clean(ms, ix, ms.len());
        assert forall|mi: int, t: int| 0 <= mi < ms.len() && 0 <= t < ms[mi].trait_impls@.len() implies match find_trait_decl_spec(
            ms,
            ix,
            ms[mi],
            (#[trigger] ms[mi].trait_impls@[t]).trait_name.0@,
        ) {
            Some(decl) => impl_matches_decl(ms[mi].trait_impls@[t], decl),
            None => true,
        } by {
            assert(trait_impls_structure_errors(ms, ix, ms[mi], ms[mi].trait_impls@).len() == 0);
            lemma_impls_clean(ms, ix, ms[mi], ms[mi].trait_impls@);
            assert(trait_impl_errors(ms, ix, ms[mi], ms[mi].trait_impls@[t]).len() == 0);
            lemma_impl_clean(ms, ix, ms[mi], ms[mi].trait_impls@[t]);
        }
    }
    if forall|mi: int, t: int| 0 <= mi < ms.len() && 0 <= t < ms[mi].trait_impls@.len() ==> match find_trait_decl_spec(
        ms,
        ix,
        ms[mi],
        (#[trigger] ms[mi].trait_impls@[t]).trait_name.0@,
    ) {
        Some(decl) => impl_matches_decl(ms[mi].trait_impls@[t], decl),
        None => true,
    } {
        lemma_structure_errors_quiet(ms, ix, ms.len());
    }
}

} // verus!
