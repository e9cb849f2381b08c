//! What the emitted resolution table lists: every module, type, trait and
//! generic type that the index records, each with where it stands, and
//! nothing else.

use vstd::prelude::*;

use crate::emit::{
    impl_entries_spec, impl_type_name, module_impl_entries, generic_entry_at, generic_triple, module_entries_view, resolution_of, trait_entries_view, trait_entry_at, trait_location_of,
    type_entries_view, type_entry_at, type_location_of,
};
use crate::index::IndexView;
use crate::ast::{ModuleDef, ModuleImport, TraitImplDef};
use crate::program::{GenericEntry, ImplEntry, ResolutionTable};

verus! {

/// The resolution table of a program lists every module under its name
/// and position; every type that the index records for a module, under
/// its name and that module, with where it is defined; every trait
/// likewise, with where it is declared; and every type that takes type
/// parameters, with where it is defined and how many it takes. Each type
/// and trait entry it holds is one of those.
pub proof fn lemma_table_lists_the_index(ms: Seq<crate::ast::ModuleDef>, ix: IndexView, r: ResolutionTable)
    requires
        resolution_of(ms, ix, r),
    ensures
        forall|n: Seq<char>| #[trigger] ix.modules.contains_key(n) ==> module_entries_view(r.modules@).contains((n, ix.modules[n] as u32, ())),
        forall|mi: int, n: Seq<char>| 0 <= mi < ix.types.len() && #[trigger] ix.types[mi].contains_key(n)
            ==> type_entries_view(r.types@).contains((n, mi as u32, type_location_of(mi, ix.types[mi][n]))),
        forall|mi: int, n: Seq<char>| 0 <= mi < ix.traits.len() && #[trigger] ix.traits[mi].contains_key(n)
            ==> trait_entries_view(r.traits@).contains((n, mi as u32, trait_location_of(mi, ix.traits[mi][n]))),
        forall|mi: int, n: Seq<char>| 0 <= mi < ix.arities.len() && #[trigger] ix.arities[mi].contains_key(n) && ix.arities[mi][n] > 0
            && mi < ix.types.len() && ix.types[mi].contains_key(n) ==> r.generics@.contains(
            GenericEntry { location: type_location_of(mi, ix.types[mi][n]), arity: ix.arities[mi][n] as u32 },
        ),
        forall|i: int| 0 <= i < r.types@.len() ==> exists|mi: int| 0 <= mi < ix.types.len()
            && ix.types[mi].contains_key(#[trigger] type_entries_view(r.types@)[i].0)
            && type_entries_view(r.types@)[i].1 == mi as u32
            && type_entries_view(r.types@)[i].2 == type_location_of(mi, ix.types[mi][type_entries_view(r.types@)[i].0]),
        forall|i: int| 0 <= i < r.traits@.len() ==> exists|mi: int| 0 <= mi < ix.traits.len()
            && ix.traits[mi].contains_key(#[trigger] trait_entries_view(r.traits@)[i].0)
            && trait_entries_view(r.traits@)[i].1 == mi as u32
            && trait_entries_view(r.traits@)[i].2 == trait_location_of(mi, ix.traits[mi][trait_entries_view(r.traits@)[i].0]),
{
    let mv = module_entries_view(r.modules@);
    let tv = type_entries_view(r.types@);
    let rv = trait_entries_view(r.traits@);
    assert forall|n: Seq<char>| #[trigger] ix.modules.contains_key(n) implies mv.contains((n, ix.modules[n] as u32, ())) by {
        assert(mv.to_set().contains((n, ix.modules[n] as u32, ())));
    }
    assert forall|mi: int, n: Seq<char>| 0 <= mi < ix.types.len() && #[trigger] ix.types[mi].contains_key(n)
        implies tv.contains((n, mi as u32, type_location_of(mi, ix.types[mi][n]))) by {
        let t = (n, mi as u32, type_location_of(mi, ix.types[mi][n]));
        assert(type_entry_at(ix, t, mi));
        assert(tv.to_set().contains(t));
    }
    assert forall|mi: int, n: Seq<char>| 0 <= mi < ix.traits.len() && #[trigger] ix.traits[mi].contains_key(n)
        implies rv.contains((n, mi as u32, trait_location_of(mi, ix.traits[mi][n]))) by {
        let t = (n, mi as u32, trait_location_of(mi, ix.traits[mi][n]));
        assert(trait_entry_at(ix, t, mi));
        assert(rv.to_set().contains(t));
    }
    let keys = choose|keys: Seq<(Seq<char>, u32, GenericEntry)>|
        #[trigger] crate::order::strictly_sorted(false, crate::order::triple_keys(keys)) && keys.to_set() == crate::emit::generic_entry_set(ix)
            && r.generics@ == Seq::new(keys.len(), |i: int| keys[i].2);
    assert forall|mi: int, n: Seq<char>| 0 <= mi < ix.arities.len() && #[trigger] ix.arities[mi].contains_key(n) && ix.arities[mi][n] > 0
        && mi < ix.types.len() && ix.types[mi].contains_key(n) implies r.generics@.contains(
        GenericEntry { location: type_location_of(mi, ix.types[mi][n]), arity: ix.arities[mi][n] as u32 },
    ) by {
        let t = generic_triple(ix, mi, n);
        assert(generic_entry_at(ix, t, mi));
        assert(keys.to_set().contains(t));
        let p = choose|p: int| 0 <= p < keys.len() && keys[p] == t;
        assert(r.generics@[p] == t.2);
    }
    assert forall|i: int| 0 <= i < r.types@.len() implies exists|mi: int| 0 <= mi < ix.types.len()
        && ix.types[mi].contains_key(#[trigger] tv[i].0) && tv[i].1 == mi as u32 && tv[i].2 == type_location_of(mi, ix.types[mi][tv[i].0]) by {
        assert(tv.to_set().contains(tv[i]));
        let mi = choose|mi: int| #[trigger] type_entry_at(ix, tv[i], mi);
        assert(type_entry_at(ix, tv[i], mi));
    }
    assert forall|i: int| 0 <= i < r.traits@.len() implies exists|mi: int| 0 <= mi < ix.traits.len()
        && ix.traits[mi].contains_key(#[trigger] rv[i].0) && rv[i].1 == mi as u32 && rv[i].2 == trait_location_of(mi, ix.traits[mi][rv[i].0]) by {
        assert(rv.to_set().contains(rv[i]));
        let mi = choose|mi: int| #[trigger] trait_entry_at(ix, rv[i], mi);
        assert(trait_entry_at(ix, rv[i], mi));
    }
}

/// The entry of the implementation at position `t` of module `mi` whose
/// trait and type are both of that module.
pub open spec fn local_impl_entry(ix: IndexView, mi: int, t: int, ti: TraitImplDef, n: Seq<char>) -> ImplEntry {
    ImplEntry {
        trait_name: trait_location_of(mi, ix.traits[mi][ti.trait_name.0@]),
        typ: type_location_of(mi, ix.types[mi][n]),
        impl_module: mi as u32,
        impl_index: t as u32,
    }
}

proof fn lemma_module_impl_entries_has(ix: IndexView, mi: int, imps: Seq<ModuleImport>, tis: Seq<TraitImplDef>, t: int, n: Seq<char>)
    requires
        0 <= t < tis.len(),
        0 <= mi < ix.traits.len(),
        mi < ix.types.len(),
        ix.traits[mi].contains_key(tis[t].trait_name.0@),
        impl_type_name(tis[t].typ) == Some(n),
        ix.types[mi].contains_key(n),
    ensures
        module_impl_entries(ix, mi, imps, tis).contains(local_impl_entry(ix, mi, t, tis[t], n)),
    decreases tis.len(),
{
    let init = tis.drop_last();
    let rest = module_impl_entries(ix, mi, imps, init);
    if t < tis.len() - 1 {
        assert(init[t] == tis[t]);
        lemma_module_impl_entries_has(ix, mi, imps, init, t, n);
        let p = choose|p: int| 0 <= p < rest.len() && rest[p] == local_impl_entry(ix, mi, t, init[t], n);
        let full = module_impl_entries(ix, mi, imps, tis);
        assert(full == rest || full == rest.push(full.last()));
        assert(full[p] == rest[p]);
    } else {
        assert(tis.last() == tis[t]);
        let full = module_impl_entries(ix, mi, imps, tis);
        assert(full == rest.push(local_impl_entry(ix, mi, t, tis[t], n)));
        assert(full[rest.len() as int] == local_impl_entry(ix, mi, t, tis[t], n));
    }
}

proof fn lemma_impl_entries_has(ms: Seq<ModuleDef>, ix: IndexView, k: nat, mi: int, t: int, n: Seq<char>)
    requires
        k <= ms.len(),
        0 <= mi < k,
        0 <= t < ms[mi].trait_impls@.len(),
        mi < ix.traits.len(),
        mi < ix.types.len(),
        ix.traits[mi].contains_key(ms[mi].trait_impls@[t].trait_name.0@),
        impl_type_name(ms[mi].trait_impls@[t].typ) == Some(n),
        ix.types[mi].contains_key(n),
    ensures
        impl_entries_spec(ms, ix, k).contains(local_impl_entry(ix, mi, t, ms[mi].trait_impls@[t], n)),
    decreases k,
{
    let e = local_impl_entry(ix, mi, t, ms[mi].trait_impls@[t], n);
    let a = impl_entries_spec(ms, ix, (k - 1) as nat);
    let b = module_impl_entries(ix, k - 1, ms[k - 1].imports@, ms[k - 1].trait_impls@);
    if mi < k - 1 {
        lemma_impl_entries_has(ms, ix, (k - 1) as nat, mi, t, n);
        let p = choose|p: int| 0 <= p < a.len() && a[p] == e;
        assert((a + b)[p] == e);
    } else {
        lemma_module_impl_entries_has(ix, mi, ms[mi].imports@, ms[mi].trait_impls@, t, n);
        let p = choose|p: int| 0 <= p < b.len() && b[p] == e;
        assert((a + b)[a.len() + p] == e);
    }
}

/// The table lists every implementation whose trait and type its own
/// module records: with the trait's and the type's locations in that
/// module and the implementation's own module and position.
pub proof fn lemma_table_lists_local_impls(ms: Seq<ModuleDef>, ix: IndexView, r: ResolutionTable)
    requires
        resolution_of(ms, ix, r),
    ensures
        forall|mi: int, t: int, n: Seq<char>| 0 <= mi < ms.len() && 0 <= t < ms[mi].trait_impls@.len() && mi < ix.traits.len()
            && mi < ix.types.len() && ix.traits[mi].contains_key(ms[mi].trait_impls@[t].trait_name.0@)
            && impl_type_name(ms[mi].trait_impls@[t].typ) == Some(n) && ix.types[mi].contains_key(n)
            ==> r.impls@.contains(#[trigger] local_impl_entry(ix, mi, t, ms[mi].trait_impls@[t], n)),
{
    assert forall|mi: int, t: int, n: Seq<char>| 0 <= mi < ms.len() && 0 <= t < ms[mi].trait_impls@.len() && mi < ix.traits.len()
        && mi < ix.types.len() && ix.traits[mi].contains_key(ms[mi].trait_impls@[t].trait_name.0@)
        && impl_type_name(ms[mi].trait_impls@[t].typ) == Some(n) && ix.types[mi].contains_key(n)
        implies r.impls@.contains(#[trigger] local_impl_entry(ix, mi, t, ms[mi].trait_impls@[t], n)) by {
        lemma_impl_entries_has(ms, ix, ms.len(), mi, t, n);
    }
}

} // verus!
