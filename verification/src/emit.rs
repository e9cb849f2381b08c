//! Emission: the verified modules together with a resolution table that
//! says where every module, type and trait stands, which trait each
//! implementation answers to, which types are generic, and where each
//! import leads.

use vstd::prelude::*;

use crate::ast::{ImportItem, ModuleDef, ModuleImport, TraitImplDef, TypeExpr};
use crate::index::{Index, IndexView, TypeKind as IdxTypeKind};
use crate::order::{sort_entries, strictly_sorted, triple_keys, triples_view};
use crate::program::{
    GenericEntry, ImplEntry, ImportResolution, ModuleEntry, Program, ResolutionTable, ResolvedImport, TraitEntry,
    TraitLocation, TypeEntry, TypeKind, TypeLocation,
};

verus! {

pub open spec fn sema_kind(k: IdxTypeKind) -> TypeKind {
    match k {
        IdxTypeKind::Enum => TypeKind::Enum,
        IdxTypeKind::Struct => TypeKind::Struct,
        IdxTypeKind::Newtype => TypeKind::Newtype,
        IdxTypeKind::Const => TypeKind::Const,
    }
}

pub open spec fn type_location_of(mi: int, v: (IdxTypeKind, usize)) -> TypeLocation {
    TypeLocation { module: mi as u32, kind: sema_kind(v.0), index: v.1 as u32 }
}

pub open spec fn trait_location_of(mi: int, d: usize) -> TraitLocation {
    TraitLocation { module: mi as u32, decl_index: d as u32 }
}

/// Every module name with its position.
pub open spec fn module_entry_set(ix: IndexView) -> Set<(Seq<char>, u32, ())> {
    Set::new(|t: (Seq<char>, u32, ())| ix.modules.contains_key(t.0) && t.1 == ix.modules[t.0] as u32)
}

/// `t` lists a type that module `mi` defines, with where it is defined.
pub open spec fn type_entry_at(ix: IndexView, t: (Seq<char>, u32, TypeLocation), mi: int) -> bool {
    0 <= mi < ix.types.len() && ix.types[mi].contains_key(t.0) && t.1 == mi as u32
        && t.2 == type_location_of(mi, ix.types[mi][t.0])
}

/// Every type of every module with where it is defined.
pub open spec fn type_entry_set(ix: IndexView) -> Set<(Seq<char>, u32, TypeLocation)> {
    Set::new(|t: (Seq<char>, u32, TypeLocation)| exists|mi: int| #[trigger] type_entry_at(ix, t, mi))
}

/// `t` lists a trait that module `mi` declares, with where it is declared.
pub open spec fn trait_entry_at(ix: IndexView, t: (Seq<char>, u32, TraitLocation), mi: int) -> bool {
    0 <= mi < ix.traits.len() && ix.traits[mi].contains_key(t.0) && t.1 == mi as u32
        && t.2 == trait_location_of(mi, ix.traits[mi][t.0])
}

/// Every trait of every module with where it is declared.
pub open spec fn trait_entry_set(ix: IndexView) -> Set<(Seq<char>, u32, TraitLocation)> {
    Set::new(|t: (Seq<char>, u32, TraitLocation)| exists|mi: int| #[trigger] trait_entry_at(ix, t, mi))
}

/// `t` lists a type of module `mi` that takes type parameters, with where
/// it is defined and how many parameters it takes.
pub open spec fn generic_entry_at(ix: IndexView, t: (Seq<char>, u32, GenericEntry), mi: int) -> bool {
    0 <= mi < ix.arities.len() && ix.arities[mi].contains_key(t.0) && ix.arities[mi][t.0] > 0
        && mi < ix.types.len() && ix.types[mi].contains_key(t.0) && t.1 == mi as u32
        && t.2 == GenericEntry { location: type_location_of(mi, ix.types[mi][t.0]), arity: ix.arities[mi][t.0] as u32 }
}

/// The entry of a generic type `k` of module `mi`.
pub open spec fn generic_triple(ix: IndexView, mi: int, k: Seq<char>) -> (Seq<char>, u32, GenericEntry) {
    (k, mi as u32, GenericEntry { location: type_location_of(mi, ix.types[mi][k]), arity: ix.arities[mi][k] as u32 })
}

/// Every type that takes type parameters, by module and name.
pub open spec fn generic_entry_set(ix: IndexView) -> Set<(Seq<char>, u32, GenericEntry)> {
    Set::new(|t: (Seq<char>, u32, GenericEntry)| exists|mi: int| #[trigger] generic_entry_at(ix, t, mi))
}

pub open spec fn module_entries_view(es: Seq<ModuleEntry>) -> Seq<(Seq<char>, u32, ())> {
    Seq::new(es.len(), |i: int| (es[i].name@, es[i].index, ()))
}

pub open spec fn type_entries_view(es: Seq<TypeEntry>) -> Seq<(Seq<char>, u32, TypeLocation)> {
    Seq::new(es.len(), |i: int| (es[i].name@, es[i].location.module, es[i].location))
}

pub open spec fn trait_entries_view(es: Seq<TraitEntry>) -> Seq<(Seq<char>, u32, TraitLocation)> {
    Seq::new(es.len(), |i: int| (es[i].name@, es[i].location.module, es[i].location))
}

/// The generic entries, ordered by module and then by name: the names of
/// a sequence that lists the generic types in that order.
pub open spec fn generics_listed(ix: IndexView, gs: Seq<GenericEntry>) -> bool {
    exists|keys: Seq<(Seq<char>, u32, GenericEntry)>|
        #[trigger] strictly_sorted(false, triple_keys(keys)) && keys.to_set() == generic_entry_set(ix)
            && gs == Seq::new(keys.len(), |i: int| keys[i].2)
}

/// The first module, from the `k`-th on, whose map binds `name`.
pub open spec fn first_module_binding<V>(maps: Seq<Map<Seq<char>, V>>, name: Seq<char>, k: int) -> Option<int>
    decreases maps.len() - k,
{
    if k < 0 || k >= maps.len() {
        None
    } else if maps[k].contains_key(name) {
        Some(k)
    } else {
        first_module_binding(maps, name, k + 1)
    }
}

/// One of `items` imports `name`, as a trait when `want_trait`, else as a
/// type.
pub open spec fn imports_name(items: Seq<ImportItem>, name: Seq<char>, want_trait: bool) -> bool {
    exists|i: int| 0 <= i < items.len() && match #[trigger] items[i] {
        ImportItem::Type_(n) => !want_trait && n.0@ == name,
        ImportItem::Trait(n) => want_trait && n.0@ == name,
    }
}

/// The module that the first of `imps` importing `name` (as a trait when
/// `want_trait`, else as a type) brings it from, when that module is in
/// the program and its map binds `name`; imports that do not are passed
/// over.
pub open spec fn import_binding<V>(
    mods: Map<Seq<char>, usize>,
    maps: Seq<Map<Seq<char>, V>>,
    imps: Seq<ModuleImport>,
    name: Seq<char>,
    want_trait: bool,
) -> Option<int>
    decreases imps.len(),
{
    if imps.len() == 0 {
        None
    } else {
        let src = imps[0].source.0@;
        if imports_name(imps[0].names@, name, want_trait) && mods.contains_key(src) && (mods[src] as int) < maps.len()
            && maps[mods[src] as int].contains_key(name) {
            Some(mods[src] as int)
        } else {
            import_binding(mods, maps, imps.drop_first(), name, want_trait)
        }
    }
}

/// Where the trait an implementation in module `mi` (with imports `imps`)
/// names is declared: in that module; else in the module it is imported
/// from; else in the first module that declares it.
pub open spec fn trait_location_spec(ix: IndexView, imps: Seq<ModuleImport>, mi: int, name: Seq<char>) -> Option<TraitLocation> {
    if 0 <= mi < ix.traits.len() && ix.traits[mi].contains_key(name) {
        Some(trait_location_of(mi, ix.traits[mi][name]))
    } else {
        match import_binding(ix.modules, ix.traits, imps, name, true) {
            Some(k) => Some(trait_location_of(k, ix.traits[k][name])),
            None => match first_module_binding(ix.traits, name, 0) {
                Some(k) => Some(trait_location_of(k, ix.traits[k][name])),
                None => None,
            },
        }
    }
}

/// The name an implemented type is known by: a named type or the
/// constructor of an application.
pub open spec fn impl_type_name(t: TypeExpr) -> Option<Seq<char>> {
    match t {
        TypeExpr::Named(n) => Some(n.0@),
        TypeExpr::Application(app) => Some(app.constructor.0@),
        _ => None,
    }
}

/// Where the type an implementation in module `mi` (with imports `imps`)
/// is for is defined: in that module; else in the module it is imported
/// from; else in the first module that defines it.
pub open spec fn type_location_spec(ix: IndexView, imps: Seq<ModuleImport>, mi: int, t: TypeExpr) -> Option<TypeLocation> {
    match impl_type_name(t) {
        None => None,
        Some(name) => if 0 <= mi < ix.types.len() && ix.types[mi].contains_key(name) {
            Some(type_location_of(mi, ix.types[mi][name]))
        } else {
            match import_binding(ix.modules, ix.types, imps, name, false) {
                Some(k) => Some(type_location_of(k, ix.types[k][name])),
                None => match first_module_binding(ix.types, name, 0) {
                    Some(k) => Some(type_location_of(k, ix.types[k][name])),
                    None => None,
                },
            }
        },
    }
}

/// The implementations of module `mi` whose trait and type both resolve.
pub open spec fn module_impl_entries(ix: IndexView, mi: int, imps: Seq<ModuleImport>, tis: Seq<TraitImplDef>) -> Seq<ImplEntry>
    decreases tis.len(),
{
    if tis.len() == 0 {
        seq![]
    } else {
        let ti = tis.last();
        let rest = module_impl_entries(ix, mi, imps, tis.drop_last());
        match (trait_location_spec(ix, imps, mi, ti.trait_name.0@), type_location_spec(ix, imps, mi, ti.typ)) {
            (Some(tl), Some(ty)) => rest.push(
                ImplEntry { trait_name: tl, typ: ty, impl_module: mi as u32, impl_index: (tis.len() - 1) as u32 },
            ),
            _ => rest,
        }
    }
}

pub open spec fn impl_entries_spec(ms: Seq<ModuleDef>, ix: IndexView, n: nat) -> Seq<ImplEntry>
    decreases n,
{
    if n == 0 || n > ms.len() {
        seq![]
    } else {
        impl_entries_spec(ms, ix, (n - 1) as nat) + module_impl_entries(ix, n - 1, ms[n - 1].imports@, ms[n - 1].trait_impls@)
    }
}

/// The items of one import that the module at `smi` defines: a type by
/// its location, a trait by its module and declaration position (under
/// the kind `Enum`).
pub open spec fn resolved_items(ix: IndexView, smi: usize, items: Seq<ImportItem>) -> Seq<(Seq<char>, TypeLocation)>
    decreases items.len(),
{
    if items.len() == 0 {
        seq![]
    } else {
        let rest = resolved_items(ix, smi, items.drop_last());
        match items.last() {
            ImportItem::Type_(n) => if smi < ix.types.len() && ix.types[smi as int].contains_key(n.0@) {
                rest.push((n.0@, type_location_of(smi as int, ix.types[smi as int][n.0@])))
            } else {
                rest
            },
            ImportItem::Trait(n) => if smi < ix.traits.len() && ix.traits[smi as int].contains_key(n.0@) {
                rest.push(
                    (n.0@, TypeLocation { module: smi as u32, kind: TypeKind::Enum, index: ix.traits[smi as int][n.0@] as u32 }),
                )
            } else {
                rest
            },
        }
    }
}

/// The resolved imports of module `mi`, one group per import from an
/// existing module that resolves at least one item.
pub open spec fn module_import_resolutions(ix: IndexView, mi: int, imps: Seq<ModuleImport>) -> Seq<(u32, Seq<(Seq<char>, TypeLocation)>)>
    decreases imps.len(),
{
    if imps.len() == 0 {
        seq![]
    } else {
        let rest = module_import_resolutions(ix, mi, imps.drop_last());
        let src = imps.last().source.0@;
        if ix.modules.contains_key(src) && resolved_items(ix, ix.modules[src], imps.last().names@).len() > 0 {
            rest.push((mi as u32, resolved_items(ix, ix.modules[src], imps.last().names@)))
        } else {
            rest
        }
    }
}

pub open spec fn import_resolutions_spec(ms: Seq<ModuleDef>, ix: IndexView, n: nat) -> Seq<(u32, Seq<(Seq<char>, TypeLocation)>)>
    decreases n,
{
    if n == 0 || n > ms.len() {
        seq![]
    } else {
        import_resolutions_spec(ms, ix, (n - 1) as nat) + module_import_resolutions(ix, n - 1, ms[n - 1].imports@)
    }
}

pub open spec fn resolved_view(rs: Seq<ResolvedImport>) -> Seq<(Seq<char>, TypeLocation)> {
    Seq::new(rs.len(), |i: int| (rs[i].name@, rs[i].location))
}

pub open spec fn import_resolutions_view(rs: Seq<ImportResolution>) -> Seq<(u32, Seq<(Seq<char>, TypeLocation)>)> {
    Seq::new(rs.len(), |i: int| (rs[i].source_module, resolved_view(rs[i].resolved@)))
}

/// The resolution table of a program, given its index: modules, types and
/// traits each listed once, by name (then by module); implementations and
/// imports in program order; generic types by module, then by name.
pub open spec fn resolution_of(ms: Seq<ModuleDef>, ix: IndexView, r: ResolutionTable) -> bool {
    &&& strictly_sorted(true, triple_keys(module_entries_view(r.modules@)))
    &&& module_entries_view(r.modules@).to_set() == module_entry_set(ix)
    &&& strictly_sorted(true, triple_keys(type_entries_view(r.types@)))
    &&& type_entries_view(r.types@).to_set() == type_entry_set(ix)
    &&& strictly_sorted(true, triple_keys(trait_entries_view(r.traits@)))
    &&& trait_entries_view(r.traits@).to_set() == trait_entry_set(ix)
    &&& r.impls@ == impl_entries_spec(ms, ix, ms.len())
    &&& generics_listed(ix, r.generics@)
    &&& import_resolutions_view(r.imports@) == import_resolutions_spec(ms, ix, ms.len())
}

/// Builds the program that the emitter hands on: the modules with their
/// resolution table.
pub struct Emitter;

impl Emitter {
    fn to_sema_kind(k: &IdxTypeKind) -> (r: TypeKind)
        ensures
            r == sema_kind(*k),
    {
        match k {
            IdxTypeKind::Enum => TypeKind::Enum,
            IdxTypeKind::Struct => TypeKind::Struct,
            IdxTypeKind::Newtype => TypeKind::Newtype,
            IdxTypeKind::Const => TypeKind::Const,
        }
    }

    /// Every module by name, in name order.
    fn module_entries(index: &Index) -> (r: Vec<ModuleEntry>)
        ensures
            strictly_sorted(true, triple_keys(module_entries_view(r@))),
            module_entries_view(r@).to_set() == module_entry_set(index@),
    {
        let ghost ix = index@;
        let es = index.modules.entries_by_name();
        let mut items: Vec<(String, u32, ())> = Vec::new();
        let n = es.len();
        for i in 0..n
            invariant
                n == es@.len(),
                items@.len() == i,
                forall|a: int| 0 <= a < i ==> #[trigger] triples_view(items@)[a] == (es@[a].0@, es@[a].1 as u32, ()),
        {
            let ghost before = items@;
            items.push((es[i].0.clone(), es[i].1 as u32, ()));
            assert forall|a: int| 0 <= a < i + 1 implies #[trigger] triples_view(items@)[a] == (es@[a].0@, es@[a].1 as u32, ()) by {
                if a < i {
                    assert(triples_view(before)[a] == triples_view(items@)[a]);
                }
            }
        }
        let ghost t = triples_view(items@);
        assert forall|a: int, b: int| 0 <= a < b < items@.len() implies crate::order::key_view(#[trigger] items@[a]) != crate::order::key_view(#[trigger] items@[b]) by {
            assert(t[a] == (es@[a].0@, es@[a].1 as u32, ()));
            assert(t[b] == (es@[b].0@, es@[b].1 as u32, ()));
        }
        assert forall|x: (Seq<char>, u32, ())| t.to_set().contains(x) <==> module_entry_set(ix).contains(x) by {
            if t.to_set().contains(x) {
                let a = choose|a: int| 0 <= a < t.len() && t[a] == x;
                assert(t[a] == (es@[a].0@, es@[a].1 as u32, ()));
            }
            if module_entry_set(ix).contains(x) {
                assert(index.modules@.contains_key(x.0));
                let a = choose|a: int| 0 <= a < es@.len() && (#[trigger] es@[a]).0@ == x.0;
                assert(t[a] == x);
            }
        }
        assert(t.to_set() =~= module_entry_set(ix));
        let sorted = sort_entries(&items, true);
        let mut out: Vec<ModuleEntry> = Vec::new();
        let m = sorted.len();
        for i in 0..m
            invariant
                m == sorted@.len(),
                out@.len() == i,
                forall|a: int| 0 <= a < i ==> #[trigger] module_entries_view(out@)[a] == triples_view(sorted@)[a],
        {
            let ghost before = out@;
            out.push(ModuleEntry { name: sorted[i].0.clone(), index: sorted[i].1 });
            assert forall|a: int| 0 <= a < i + 1 implies #[trigger] module_entries_view(out@)[a] == triples_view(sorted@)[a] by {
                if a < i {
                    assert(module_entries_view(before)[a] == module_entries_view(out@)[a]);
                }
            }
        }
        assert(module_entries_view(out@) =~= triples_view(sorted@));
        out
    }

    /// Every type of every module, in order of name and then module.
    fn type_entries(index: &Index) -> (r: Vec<TypeEntry>)
        requires
            index@.types.len() <= u32::MAX,
        ensures
            strictly_sorted(true, triple_keys(type_entries_view(r@))),
            type_entries_view(r@).to_set() == type_entry_set(index@),
    {
        let ghost ix = index@;
        let mut items: Vec<(String, u32, TypeLocation)> = Vec::new();
        let ghost mut src: Seq<int> = seq![];
        let n = index.types.len();
        for mi in 0..n
            invariant
                n == ix.types.len(),
                n <= u32::MAX,
                ix == index@,
                src.len() == items@.len(),
                forall|a: int| 0 <= a < items@.len() ==> #[trigger] src[a] < mi
                    && type_entry_at(ix, triples_view(items@)[a], src[a]),
                forall|a: int, b: int| 0 <= a < b < items@.len() ==> crate::order::key_view(#[trigger] items@[a])
                    != crate::order::key_view(#[trigger] items@[b]),
                forall|j: int, k: Seq<char>| 0 <= j < mi && #[trigger] ix.types[j].contains_key(k) ==> exists|a: int|
                    0 <= a < items@.len() && #[trigger] triples_view(items@)[a] == (k, j as u32, type_location_of(j, ix.types[j][k])),
        {
            let es = index.types[mi].entries_by_name();
            let start = items.len();
            let m = es.len();
            let mut c: usize = 0;
            while c < m
                invariant
                    c <= m,
                    n == ix.types.len(),
                    n <= u32::MAX,
                    mi < n,
                    ix == index@,
                    m == es@.len(),
                    ix.types[mi as int] == index.types@[mi as int]@,
                    forall|x: int, y: int| 0 <= x < y < es@.len() ==> (#[trigger] es@[x]).0@ != (#[trigger] es@[y]).0@,
                    forall|x: int| 0 <= x < es@.len() ==> ix.types[mi as int].contains_key((#[trigger] es@[x]).0@)
                        && ix.types[mi as int][es@[x].0@] == es@[x].1,
                    src.len() == items@.len(),
                    items@.len() == start + c,
                    forall|a: int| 0 <= a < start ==> #[trigger] src[a] < mi,
                    forall|a: int| start <= a < items@.len() ==> #[trigger] src[a] == mi
                        && triples_view(items@)[a] == (es@[a - start].0@, mi as u32, type_location_of(mi as int, es@[a - start].1)),
                    forall|a: int| 0 <= a < items@.len() ==> #[trigger] src[a] <= mi
                        && type_entry_at(ix, triples_view(items@)[a], src[a]),
                    forall|a: int, b: int| 0 <= a < b < items@.len() ==> crate::order::key_view(#[trigger] items@[a])
                        != crate::order::key_view(#[trigger] items@[b]),
                    forall|j: int, k: Seq<char>| 0 <= j < mi && #[trigger] ix.types[j].contains_key(k) ==> exists|a: int|
                        0 <= a < items@.len() && #[trigger] triples_view(items@)[a] == (k, j as u32, type_location_of(j, ix.types[j][k])),
                decreases m - c,
            {
                let ghost before = items@;
                let ghost old_src = src;
                let kind = Self::to_sema_kind(&es[c].1.0);
                items.push((es[c].0.clone(), mi as u32, TypeLocation { module: mi as u32, kind, index: es[c].1.1 as u32 }));
                proof {
                    src = src.push(mi as int);
                    assert forall|a: int| 0 <= a < before.len() implies triples_view(items@)[a] == triples_view(before)[a]
                        && items@[a] == before[a] && src[a] == old_src[a] by {}
                    let last = triples_view(items@)[start + c];
                    assert(last == (es@[c as int].0@, mi as u32, type_location_of(mi as int, es@[c as int].1)));
                    assert(type_entry_at(ix, last, mi as int));
                    assert forall|a: int| 0 <= a < start implies #[trigger] src[a] < mi by {
                        assert(old_src[a] < mi);
                    }
                    assert forall|a: int| start <= a < items@.len() implies #[trigger] src[a] == mi
                        && triples_view(items@)[a] == (es@[a - start].0@, mi as u32, type_location_of(mi as int, es@[a - start].1)) by {
                        if a < before.len() {
                            assert(old_src[a] == mi);
                        }
                    }
                    assert forall|a: int| 0 <= a < items@.len() implies #[trigger] src[a] <= mi
                        && type_entry_at(ix, triples_view(items@)[a], src[a]) by {
                        if a < before.len() {
                            assert(old_src[a] <= mi);
                        }
                    }
                    assert forall|a: int, b: int| 0 <= a < b < items@.len() implies crate::order::key_view(#[trigger] items@[a])
                        != crate::order::key_view(#[trigger] items@[b]) by {
                        if b == items@.len() - 1 {
                            if a >= start {
                                assert(old_src[a] == mi);
                                assert(triples_view(items@)[a].0 == es@[a - start].0@);
                            } else {
                                assert(old_src[a] < mi);
                                assert(type_entry_at(ix, triples_view(before)[a], old_src[a]));
                                assert(triples_view(items@)[a].1 == src[a] as u32);
                            }
                        } else {
                            assert(items@[a] == before[a] && items@[b] == before[b]);
                        }
                    }
                    assert forall|j: int, k: Seq<char>| 0 <= j < mi && #[trigger] ix.types[j].contains_key(k) implies exists|a: int|
                        0 <= a < items@.len() && #[trigger] triples_view(items@)[a] == (k, j as u32, type_location_of(j, ix.types[j][k])) by {
                        let a = choose|a: int| 0 <= a < before.len() && #[trigger] triples_view(before)[a] == (k, j as u32, type_location_of(j, ix.types[j][k]));
                        assert(triples_view(items@)[a] == triples_view(before)[a]);
                    }
                }
                c = c + 1;
            }
            proof {
                assert forall|j: int, k: Seq<char>| 0 <= j < mi + 1 && #[trigger] ix.types[j].contains_key(k) implies exists|a: int|
                    0 <= a < items@.len() && #[trigger] triples_view(items@)[a] == (k, j as u32, type_location_of(j, ix.types[j][k])) by {
                    if j == mi {
                        assert(index.types@[mi as int]@.contains_key(k));
                        let x = choose|x: int| 0 <= x < es@.len() && (#[trigger] es@[x]).0@ == k;
                        assert(src[start + x] == mi);
                        assert(triples_view(items@)[start + x] == (k, j as u32, type_location_of(j, ix.types[j][k])));
                    }
                }
            }
        }
        let ghost t = triples_view(items@);
        assert forall|x: (Seq<char>, u32, TypeLocation)| t.to_set().contains(x) <==> type_entry_set(ix).contains(x) by {
            if t.to_set().contains(x) {
                let a = choose|a: int| 0 <= a < t.len() && t[a] == x;
                assert(type_entry_at(ix, x, src[a]));
            }
            if type_entry_set(ix).contains(x) {
                let j = choose|j: int| #[trigger] type_entry_at(ix, x, j);
                assert(ix.types[j].contains_key(x.0));
                let a = choose|a: int| 0 <= a < items@.len() && #[trigger] triples_view(items@)[a] == (x.0, j as u32, type_location_of(j, ix.types[j][x.0]));
                assert(t[a] == x);
            }
        }
        assert(t.to_set() =~= type_entry_set(ix));
        let sorted = sort_entries(&items, true);
        let mut out: Vec<TypeEntry> = Vec::new();
        let m = sorted.len();
        for i in 0..m
            invariant
                m == sorted@.len(),
                triples_view(sorted@).to_set() == type_entry_set(ix),
                out@.len() == i,
                forall|a: int| 0 <= a < i ==> #[trigger] type_entries_view(out@)[a] == triples_view(sorted@)[a],
        {
            let ghost before = out@;
            proof {
                let x = triples_view(sorted@)[i as int];
                assert(triples_view(sorted@).to_set().contains(x));
                let j = choose|j: int| #[trigger] type_entry_at(ix, x, j);
            }
            out.push(TypeEntry { name: sorted[i].0.clone(), location: sorted[i].2 });
            assert forall|a: int| 0 <= a < i + 1 implies #[trigger] type_entries_view(out@)[a] == triples_view(sorted@)[a] by {
                if a < i {
                    assert(type_entries_view(before)[a] == type_entries_view(out@)[a]);
                }
            }
        }
        assert(type_entries_view(out@) =~= triples_view(sorted@));
        out
    }

    /// Every trait of every module, in order of name and then module.
    fn trait_entries(index: &Index) -> (r: Vec<TraitEntry>)
        requires
            index@.traits.len() <= u32::MAX,
        ensures
            strictly_sorted(true, triple_keys(trait_entries_view(r@))),
            trait_entries_view(r@).to_set() == trait_entry_set(index@),
    {
        let ghost ix = index@;
        let mut items: Vec<(String, u32, TraitLocation)> = Vec::new();
        let ghost mut src: Seq<int> = seq![];
        let n = index.traits.len();
        for mi in 0..n
            invariant
                n == ix.traits.len(),
                n <= u32::MAX,
                ix == index@,
                src.len() == items@.len(),
                forall|a: int| 0 <= a < items@.len() ==> #[trigger] src[a] < mi
                    && trait_entry_at(ix, triples_view(items@)[a], src[a]),
                forall|a: int, b: int| 0 <= a < b < items@.len() ==> crate::order::key_view(#[trigger] items@[a])
                    != crate::order::key_view(#[trigger] items@[b]),
                forall|j: int, k: Seq<char>| 0 <= j < mi && #[trigger] ix.traits[j].contains_key(k) ==> exists|a: int|
                    0 <= a < items@.len() && #[trigger] triples_view(items@)[a] == (k, j as u32, trait_location_of(j, ix.traits[j][k])),
        {
            let es = index.traits[mi].entries_by_name();
            let start = items.len();
            let m = es.len();
            let mut c: usize = 0;
            while c < m
                invariant
                    c <= m,
                    n == ix.traits.len(),
                    n <= u32::MAX,
                    mi < n,
                    ix == index@,
                    m == es@.len(),
                    ix.traits[mi as int] == index.traits@[mi as int]@,
                    forall|x: int, y: int| 0 <= x < y < es@.len() ==> (#[trigger] es@[x]).0@ != (#[trigger] es@[y]).0@,
                    forall|x: int| 0 <= x < es@.len() ==> ix.traits[mi as int].contains_key((#[trigger] es@[x]).0@)
                        && ix.traits[mi as int][es@[x].0@] == es@[x].1,
                    src.len() == items@.len(),
                    items@.len() == start + c,
                    forall|a: int| 0 <= a < start ==> #[trigger] src[a] < mi,
                    forall|a: int| start <= a < items@.len() ==> #[trigger] src[a] == mi
                        && triples_view(items@)[a] == (es@[a - start].0@, mi as u32, trait_location_of(mi as int, es@[a - start].1)),
                    forall|a: int| 0 <= a < items@.len() ==> #[trigger] src[a] <= mi
                        && trait_entry_at(ix, triples_view(items@)[a], src[a]),
                    forall|a: int, b: int| 0 <= a < b < items@.len() ==> crate::order::key_view(#[trigger] items@[a])
                        != crate::order::key_view(#[trigger] items@[b]),
                    forall|j: int, k: Seq<char>| 0 <= j < mi && #[trigger] ix.traits[j].contains_key(k) ==> exists|a: int|
                        0 <= a < items@.len() && #[trigger] triples_view(items@)[a] == (k, j as u32, trait_location_of(j, ix.traits[j][k])),
                decreases m - c,
            {
                let ghost before = items@;
                let ghost old_src = src;
                items.push((es[c].0.clone(), mi as u32, TraitLocation { module: mi as u32, decl_index: es[c].1 as u32 }));
                proof {
                    src = src.push(mi as int);
                    assert forall|a: int| 0 <= a < before.len() implies triples_view(items@)[a] == triples_view(before)[a]
                        && items@[a] == before[a] && src[a] == old_src[a] by {}
                    let last = triples_view(items@)[start + c];
                    assert(last == (es@[c as int].0@, mi as u32, trait_location_of(mi as int, es@[c as int].1)));
                    assert(trait_entry_at(ix, last, mi as int));
                    assert forall|a: int| 0 <= a < start implies #[trigger] src[a] < mi by {
                        assert(old_src[a] < mi);
                    }
                    assert forall|a: int| start <= a < items@.len() implies #[trigger] src[a] == mi
                        && triples_view(items@)[a] == (es@[a - start].0@, mi as u32, trait_location_of(mi as int, es@[a - start].1)) by {
                        if a < before.len() {
                            assert(old_src[a] == mi);
                        }
                    }
                    assert forall|a: int| 0 <= a < items@.len() implies #[trigger] src[a] <= mi
                        && trait_entry_at(ix, triples_view(items@)[a], src[a]) by {
                        if a < before.len() {
                            assert(old_src[a] <= mi);
                        }
                    }
                    assert forall|a: int, b: int| 0 <= a < b < items@.len() implies crate::order::key_view(#[trigger] items@[a])
                        != crate::order::key_view(#[trigger] items@[b]) by {
                        if b == items@.len() - 1 {
                            if a >= start {
                                assert(old_src[a] == mi);
                                assert(triples_view(items@)[a].0 == es@[a - start].0@);
                            } else {
                                assert(old_src[a] < mi);
                                assert(trait_entry_at(ix, triples_view(before)[a], old_src[a]));
                                assert(triples_view(items@)[a].1 == src[a] as u32);
                            }
                        } else {
                            assert(items@[a] == before[a] && items@[b] == before[b]);
                        }
                    }
                    assert forall|j: int, k: Seq<char>| 0 <= j < mi && #[trigger] ix.traits[j].contains_key(k) implies exists|a: int|
                        0 <= a < items@.len() && #[trigger] triples_view(items@)[a] == (k, j as u32, trait_location_of(j, ix.traits[j][k])) by {
                        let a = choose|a: int| 0 <= a < before.len() && #[trigger] triples_view(before)[a] == (k, j as u32, trait_location_of(j, ix.traits[j][k]));
                        assert(triples_view(items@)[a] == triples_view(before)[a]);
                    }
                }
                c = c + 1;
            }
            proof {
                assert forall|j: int, k: Seq<char>| 0 <= j < mi + 1 && #[trigger] ix.traits[j].contains_key(k) implies exists|a: int|
                    0 <= a < items@.len() && #[trigger] triples_view(items@)[a] == (k, j as u32, trait_location_of(j, ix.traits[j][k])) by {
                    if j == mi {
                        assert(index.traits@[mi as int]@.contains_key(k));
                        let x = choose|x: int| 0 <= x < es@.len() && (#[trigger] es@[x]).0@ == k;
                        assert(src[start + x] == mi);
                        assert(triples_view(items@)[start + x] == (k, j as u32, trait_location_of(j, ix.traits[j][k])));
                    }
                }
            }
        }
        let ghost t = triples_view(items@);
        assert forall|x: (Seq<char>, u32, TraitLocation)| t.to_set().contains(x) <==> trait_entry_set(ix).contains(x) by {
            if t.to_set().contains(x) {
                let a = choose|a: int| 0 <= a < t.len() && t[a] == x;
                assert(trait_entry_at(ix, x, src[a]));
            }
            if trait_entry_set(ix).contains(x) {
                let j = choose|j: int| #[trigger] trait_entry_at(ix, x, j);
                assert(ix.traits[j].contains_key(x.0));
                let a = choose|a: int| 0 <= a < items@.len() && #[trigger] triples_view(items@)[a] == (x.0, j as u32, trait_location_of(j, ix.traits[j][x.0]));
                assert(t[a] == x);
            }
        }
        assert(t.to_set() =~= trait_entry_set(ix));
        let sorted = sort_entries(&items, true);
        let mut out: Vec<TraitEntry> = Vec::new();
        let m = sorted.len();
        for i in 0..m
            invariant
                m == sorted@.len(),
                triples_view(sorted@).to_set() == trait_entry_set(ix),
                out@.len() == i,
                forall|a: int| 0 <= a < i ==> #[trigger] trait_entries_view(out@)[a] == triples_view(sorted@)[a],
        {
            let ghost before = out@;
            proof {
                let x = triples_view(sorted@)[i as int];
                assert(triples_view(sorted@).to_set().contains(x));
                let j = choose|j: int| #[trigger] trait_entry_at(ix, x, j);
            }
            out.push(TraitEntry { name: sorted[i].0.clone(), location: sorted[i].2 });
            assert forall|a: int| 0 <= a < i + 1 implies #[trigger] trait_entries_view(out@)[a] == triples_view(sorted@)[a] by {
                if a < i {
                    assert(trait_entries_view(before)[a] == trait_entries_view(out@)[a]);
                }
            }
        }
        assert(trait_entries_view(out@) =~= triples_view(sorted@));
        out
    }

    /// Every type that takes type parameters, in order of module and then
    /// name.
    fn generic_entries(index: &Index) -> (r: Vec<GenericEntry>)
        requires
            index@.arities.len() <= u32::MAX,
        ensures
            generics_listed(index@, r@),
    {
        let ghost ix = index@;
        let mut items: Vec<(String, u32, GenericEntry)> = Vec::new();
        let ghost mut src: Seq<int> = seq![];
        let ghost mut pos: Seq<int> = seq![];
        let n = index.arities.len();
        for mi in 0..n
            invariant
                n == ix.arities.len(),
                n <= u32::MAX,
                ix == index@,
                src.len() == items@.len(),
                forall|a: int| 0 <= a < items@.len() ==> #[trigger] src[a] < mi
                    && generic_entry_at(ix, triples_view(items@)[a], src[a]),
                forall|a: int, b: int| 0 <= a < b < items@.len() ==> crate::order::key_view(#[trigger] items@[a])
                    != crate::order::key_view(#[trigger] items@[b]),
                forall|j: int, k: Seq<char>| 0 <= j < mi && #[trigger] ix.arities[j].contains_key(k) && ix.arities[j][k] > 0
                    && j < ix.types.len() && ix.types[j].contains_key(k) ==> exists|a: int|
                    0 <= a < items@.len() && #[trigger] triples_view(items@)[a] == generic_triple(ix, j, k),
        {
            let es = index.arities[mi].entries_by_name();
            let start = items.len();
            let ghost old_pos = pos;
            proof {
                pos = Seq::new(items@.len() as nat, |a: int| 0int);
            }
            let m = es.len();
            let mut c: usize = 0;
            while c < m
                invariant
                    c <= m,
                    n == ix.arities.len(),
                    n <= u32::MAX,
                    mi < n,
                    ix == index@,
                    m == es@.len(),
                    ix.arities[mi as int] == index.arities@[mi as int]@,
                    forall|x: int, y: int| 0 <= x < y < es@.len() ==> (#[trigger] es@[x]).0@ != (#[trigger] es@[y]).0@,
                    forall|x: int| 0 <= x < es@.len() ==> ix.arities[mi as int].contains_key((#[trigger] es@[x]).0@)
                        && ix.arities[mi as int][es@[x].0@] == es@[x].1,
                    src.len() == items@.len(),
                    pos.len() == items@.len(),
                    start <= items@.len(),
                    forall|a: int| 0 <= a < start ==> #[trigger] src[a] < mi,
                    forall|a: int| start <= a < items@.len() ==> #[trigger] src[a] == mi && 0 <= pos[a] < c
                        && triples_view(items@)[a].0 == es@[pos[a]].0@,
                    forall|a: int| 0 <= a < items@.len() ==> #[trigger] src[a] <= mi
                        && generic_entry_at(ix, triples_view(items@)[a], src[a]),
                    forall|a: int, b: int| 0 <= a < b < items@.len() ==> crate::order::key_view(#[trigger] items@[a])
                        != crate::order::key_view(#[trigger] items@[b]),
                    forall|j: int, k: Seq<char>| 0 <= j < mi && #[trigger] ix.arities[j].contains_key(k) && ix.arities[j][k] > 0
                        && j < ix.types.len() && ix.types[j].contains_key(k) ==> exists|a: int|
                        0 <= a < items@.len() && #[trigger] triples_view(items@)[a] == generic_triple(ix, j, k),
                    forall|x: int| 0 <= x < c && (#[trigger] es@[x]).1 > 0 && mi < ix.types.len()
                        && ix.types[mi as int].contains_key(es@[x].0@) ==> exists|a: int|
                        0 <= a < items@.len() && #[trigger] triples_view(items@)[a] == generic_triple(ix, mi as int, es@[x].0@),
                decreases m - c,
            {
                if es[c].1 > 0 && mi < index.types.len() {
                    if let Some(found) = index.types[mi].get(es[c].0.as_str()) {
                        let ghost before = items@;
                        let ghost old_src = src;
                        let ghost prev_pos = pos;
                        let kind = Self::to_sema_kind(&found.0);
                        let location = TypeLocation { module: mi as u32, kind, index: found.1 as u32 };
                        items.push((es[c].0.clone(), mi as u32, GenericEntry { location, arity: es[c].1 as u32 }));
                        proof {
                            src = src.push(mi as int);
                            pos = pos.push(c as int);
                            assert forall|a: int| 0 <= a < before.len() implies triples_view(items@)[a] == triples_view(before)[a]
                                && items@[a] == before[a] && src[a] == old_src[a] && pos[a] == prev_pos[a] by {}
                            let last = triples_view(items@)[before.len() as int];
                            assert(last == generic_triple(ix, mi as int, es@[c as int].0@));
                            assert(generic_entry_at(ix, last, mi as int));
                            assert forall|a: int| 0 <= a < start implies #[trigger] src[a] < mi by {
                                assert(old_src[a] < mi);
                            }
                            assert forall|a: int| start <= a < items@.len() implies #[trigger] src[a] == mi && 0 <= pos[a] < c + 1
                                && triples_view(items@)[a].0 == es@[pos[a]].0@ by {
                                if a < before.len() {
                                    assert(old_src[a] == mi);
                                }
                            }
                            assert forall|a: int| 0 <= a < items@.len() implies #[trigger] src[a] <= mi
                                && generic_entry_at(ix, triples_view(items@)[a], src[a]) by {
                                if a < before.len() {
                                    assert(old_src[a] <= mi);
                                }
                            }
                            assert forall|a: int, b: int| 0 <= a < b < items@.len() implies crate::order::key_view(#[trigger] items@[a])
                                != crate::order::key_view(#[trigger] items@[b]) by {
                                if b == items@.len() - 1 {
                                    if a >= start {
                                        assert(old_src[a] == mi);
                                        assert(triples_view(items@)[a].0 == es@[prev_pos[a]].0@);
                                    } else {
                                        assert(old_src[a] < mi);
                                        assert(generic_entry_at(ix, triples_view(before)[a], old_src[a]));
                                        assert(triples_view(items@)[a].1 == src[a] as u32);
                                    }
                                } else {
                                    assert(items@[a] == before[a] && items@[b] == before[b]);
                                }
                            }
                            assert forall|j: int, k: Seq<char>| 0 <= j < mi && #[trigger] ix.arities[j].contains_key(k) && ix.arities[j][k] > 0
                                && j < ix.types.len() && ix.types[j].contains_key(k) implies exists|a: int|
                                0 <= a < items@.len() && #[trigger] triples_view(items@)[a] == generic_triple(ix, j, k) by {
                                let a = choose|a: int| 0 <= a < before.len() && #[trigger] triples_view(before)[a] == generic_triple(ix, j, k);
                                assert(triples_view(items@)[a] == triples_view(before)[a]);
                            }
                            assert forall|x: int| 0 <= x < c + 1 && (#[trigger] es@[x]).1 > 0 && mi < ix.types.len()
                                && ix.types[mi as int].contains_key(es@[x].0@) implies exists|a: int|
                                0 <= a < items@.len() && #[trigger] triples_view(items@)[a] == generic_triple(ix, mi as int, es@[x].0@) by {
                                if x < c {
                                    let a = choose|a: int| 0 <= a < before.len() && #[trigger] triples_view(before)[a] == generic_triple(ix, mi as int, es@[x].0@);
                                    assert(triples_view(items@)[a] == triples_view(before)[a]);
                                } else {
                                    assert(triples_view(items@)[before.len() as int] == generic_triple(ix, mi as int, es@[x].0@));
                                }
                            }
                        }
                    }
                }
                assert forall|a: int| start <= a < items@.len() implies #[trigger] src[a] == mi && 0 <= pos[a] < c + 1
                    && triples_view(items@)[a].0 == es@[pos[a]].0@ by {}
                c = c + 1;
            }
            proof {
                assert forall|j: int, k: Seq<char>| 0 <= j < mi + 1 && #[trigger] ix.arities[j].contains_key(k) && ix.arities[j][k] > 0
                    && j < ix.types.len() && ix.types[j].contains_key(k) implies exists|a: int|
                    0 <= a < items@.len() && #[trigger] triples_view(items@)[a] == generic_triple(ix, j, k) by {
                    if j == mi {
                        assert(index.arities@[mi as int]@.contains_key(k));
                        let x = choose|x: int| 0 <= x < es@.len() && (#[trigger] es@[x]).0@ == k;
                        assert(es@[x].1 > 0);
                    }
                }
            }
        }
        let ghost t = triples_view(items@);
        assert forall|x: (Seq<char>, u32, GenericEntry)| t.to_set().contains(x) <==> generic_entry_set(ix).contains(x) by {
            if t.to_set().contains(x) {
                let a = choose|a: int| 0 <= a < t.len() && t[a] == x;
                assert(generic_entry_at(ix, x, src[a]));
            }
            if generic_entry_set(ix).contains(x) {
                let j = choose|j: int| #[trigger] generic_entry_at(ix, x, j);
                assert(ix.arities[j].contains_key(x.0));
                let a = choose|a: int| 0 <= a < items@.len() && #[trigger] triples_view(items@)[a] == generic_triple(ix, j, x.0);
                assert(t[a] == x);
            }
        }
        assert(t.to_set() =~= generic_entry_set(ix));
        let sorted = sort_entries(&items, false);
        let mut out: Vec<GenericEntry> = Vec::new();
        let m = sorted.len();
        for i in 0..m
            invariant
                m == sorted@.len(),
                out@.len() == i,
                forall|a: int| 0 <= a < i ==> #[trigger] out@[a] == triples_view(sorted@)[a].2,
        {
            out.push(sorted[i].2);
        }
        proof {
            let keys = triples_view(sorted@);
            assert(out@ =~= Seq::new(keys.len(), |i: int| keys[i].2));
            assert(strictly_sorted(false, triple_keys(keys)) && keys.to_set() == generic_entry_set(ix)
                && out@ == Seq::new(keys.len(), |i: int| keys[i].2));
        }
        out
    }

    /// Whether one of `items` imports `name`, as a trait when `want_trait`,
    /// else as a type.
    fn imports_named(items: &Vec<ImportItem>, name: &str, want_trait: bool) -> (r: bool)
        ensures
            r == imports_name(items@, name@, want_trait),
    {
        let n = items.len();
        for i in 0..n
            invariant
                n == items@.len(),
                forall|j: int| 0 <= j < i ==> !match #[trigger] items@[j] {
                    ImportItem::Type_(t) => !want_trait && t.0@ == name@,
                    ImportItem::Trait(t) => want_trait && t.0@ == name@,
                },
        {
            let hit = match &items[i] {
                ImportItem::Type_(t) => !want_trait && crate::text::same_text(t.0.as_str(), name),
                ImportItem::Trait(t) => want_trait && crate::text::same_text(t.0.as_str(), name),
            };
            if hit {
                return true;
            }
        }
        false
    }

    /// The module the first fitting import brings the trait `name` from,
    /// with the trait's position there.
    fn trait_via_imports(index: &Index, imps: &Vec<ModuleImport>, name: &str) -> (r: Option<(usize, usize)>)
        ensures
            match r {
                Some((k, d)) => import_binding(index@.modules, index@.traits, imps@, name@, true) == Some(k as int)
                    && d == index@.traits[k as int][name@],
                None => import_binding(index@.modules, index@.traits, imps@, name@, true) is None,
            },
    {
        let ghost ix = index@;
        let n = imps.len();
        let mut i: usize = 0;
        assert(imps@.subrange(0, n as int) =~= imps@);
        while i < n
            invariant
                i <= n,
                n == imps@.len(),
                ix == index@,
                import_binding(ix.modules, ix.traits, imps@, name@, true) == import_binding(
                    ix.modules,
                    ix.traits,
                    imps@.subrange(i as int, n as int),
                    name@,
                    true,
                ),
            decreases n - i,
        {
            assert(imps@.subrange(i as int, n as int).drop_first() =~= imps@.subrange(i + 1, n as int));
            assert(imps@.subrange(i as int, n as int)[0] == imps@[i as int]);
            if Self::imports_named(&imps[i].names, name, true) {
                if let Some(src) = index.modules.get(imps[i].source.0.as_str()) {
                    if src < index.traits.len() {
                        if let Some(d) = index.traits[src].get(name) {
                            return Some((src, d));
                        }
                    }
                }
            }
            i = i + 1;
        }
        assert(imps@.subrange(n as int, n as int) =~= Seq::<ModuleImport>::empty());
        None
    }

    /// The module the first fitting import brings the type `name` from,
    /// with where the type stands there.
    fn type_via_imports(index: &Index, imps: &Vec<ModuleImport>, name: &str) -> (r: Option<(usize, (IdxTypeKind, usize))>)
        ensures
            match r {
                Some((k, v)) => import_binding(index@.modules, index@.types, imps@, name@, false) == Some(k as int)
                    && v == index@.types[k as int][name@],
                None => import_binding(index@.modules, index@.types, imps@, name@, false) is None,
            },
    {
        let ghost ix = index@;
        let n = imps.len();
        let mut i: usize = 0;
        assert(imps@.subrange(0, n as int) =~= imps@);
        while i < n
            invariant
                i <= n,
                n == imps@.len(),
                ix == index@,
                import_binding(ix.modules, ix.types, imps@, name@, false) == import_binding(
                    ix.modules,
                    ix.types,
                    imps@.subrange(i as int, n as int),
                    name@,
                    false,
                ),
            decreases n - i,
        {
            assert(imps@.subrange(i as int, n as int).drop_first() =~= imps@.subrange(i + 1, n as int));
            assert(imps@.subrange(i as int, n as int)[0] == imps@[i as int]);
            if Self::imports_named(&imps[i].names, name, false) {
                if let Some(src) = index.modules.get(imps[i].source.0.as_str()) {
                    if src < index.types.len() {
                        if let Some(v) = index.types[src].get(name) {
                            return Some((src, v));
                        }
                    }
                }
            }
            i = i + 1;
        }
        assert(imps@.subrange(n as int, n as int) =~= Seq::<ModuleImport>::empty());
        None
    }

    /// Where the trait an implementation in module `mi` names is declared.
    fn find_trait_location(index: &Index, imps: &Vec<ModuleImport>, mi: usize, trait_name: &str) -> (r: Option<TraitLocation>)
        ensures
            r == trait_location_spec(index@, imps@, mi as int, trait_name@),
    {
        let ghost ix = index@;
        if mi < index.traits.len() {
            if let Some(d) = index.traits[mi].get(trait_name) {
                return Some(TraitLocation { module: mi as u32, decl_index: d as u32 });
            }
        }
        if let Some((k, d)) = Self::trait_via_imports(index, imps, trait_name) {
            return Some(TraitLocation { module: k as u32, decl_index: d as u32 });
        }
        let n = index.traits.len();
        let mut k: usize = 0;
        while k < n
            invariant
                k <= n,
                n == ix.traits.len(),
                ix == index@,
                !(0 <= mi < ix.traits.len() && ix.traits[mi as int].contains_key(trait_name@)),
                import_binding(ix.modules, ix.traits, imps@, trait_name@, true) is None,
                first_module_binding(ix.traits, trait_name@, 0) == first_module_binding(ix.traits, trait_name@, k as int),
            decreases n - k,
        {
            if let Some(d) = index.traits[k].get(trait_name) {
                return Some(TraitLocation { module: k as u32, decl_index: d as u32 });
            }
            k = k + 1;
        }
        None
    }

    /// Where the type an implementation in module `mi` is for is defined.
    fn resolve_type_location(index: &Index, imps: &Vec<ModuleImport>, mi: usize, typ: &TypeExpr) -> (r: Option<TypeLocation>)
        ensures
            r == type_location_spec(index@, imps@, mi as int, *typ),
    {
        let ghost ix = index@;
        let name: &str = match typ {
            TypeExpr::Named(n) => n.0.as_str(),
            TypeExpr::Application(app) => app.constructor.0.as_str(),
            _ => {
                return None;
            },
        };
        assert(impl_type_name(*typ) == Some(name@));
        if mi < index.types.len() {
            if let Some(found) = index.types[mi].get(name) {
                let kind = Self::to_sema_kind(&found.0);
                return Some(TypeLocation { module: mi as u32, kind, index: found.1 as u32 });
            }
        }
        if let Some((k, found)) = Self::type_via_imports(index, imps, name) {
            let kind = Self::to_sema_kind(&found.0);
            return Some(TypeLocation { module: k as u32, kind, index: found.1 as u32 });
        }
        let n = index.types.len();
        let mut k: usize = 0;
        while k < n
            invariant
                k <= n,
                n == ix.types.len(),
                ix == index@,
                impl_type_name(*typ) == Some(name@),
                !(0 <= mi < ix.types.len() && ix.types[mi as int].contains_key(name@)),
                import_binding(ix.modules, ix.types, imps@, name@, false) is None,
                first_module_binding(ix.types, name@, 0) == first_module_binding(ix.types, name@, k as int),
            decreases n - k,
        {
            if let Some(found) = index.types[k].get(name) {
                let kind = Self::to_sema_kind(&found.0);
                return Some(TypeLocation { module: k as u32, kind, index: found.1 as u32 });
            }
            k = k + 1;
        }
        None
    }

    /// The implementations whose trait and type both resolve, in program
    /// order.
    fn impl_entries(modules: &[ModuleDef], index: &Index) -> (r: Vec<ImplEntry>)
        ensures
            r@ == impl_entries_spec(modules@, index@, modules@.len()),
    {
        let ghost ix = index@;
        let mut out: Vec<ImplEntry> = Vec::new();
        let n = modules.len();
        let mut mi: usize = 0;
        while mi < n
            invariant
                mi <= n,
                n == modules@.len(),
                ix == index@,
                out@ == impl_entries_spec(modules@, ix, mi as nat),
            decreases n - mi,
        {
            let tis = &modules[mi].trait_impls;
            let imps = &modules[mi].imports;
            let ghost base = out@;
            let m = tis.len();
            let mut ii: usize = 0;
            while ii < m
                invariant
                    ii <= m,
                    m == tis@.len(),
                    ix == index@,
                    imps@ == modules@[mi as int].imports@,
                    out@ == base + module_impl_entries(ix, mi as int, imps@, tis@.take(ii as int)),
                decreases m - ii,
            {
                let tl = Self::find_trait_location(index, imps, mi, tis[ii].trait_name.0.as_str());
                let ty = Self::resolve_type_location(index, imps, mi, &tis[ii].typ);
                assert(tis@.take(ii + 1).drop_last() =~= tis@.take(ii as int));
                match tl {
                    Some(t) => match ty {
                        Some(y) => {
                            out.push(ImplEntry { trait_name: t, typ: y, impl_module: mi as u32, impl_index: ii as u32 });
                        },
                        None => {},
                    },
                    None => {},
                }
                assert(out@ =~= base + module_impl_entries(ix, mi as int, imps@, tis@.take(ii + 1)));
                ii = ii + 1;
            }
            assert(tis@.take(m as int) =~= tis@);
            mi = mi + 1;
        }
        out
    }

    /// The items of one import that the module at `smi` defines.
    fn resolve_items(index: &Index, smi: usize, items: &Vec<ImportItem>) -> (r: Vec<ResolvedImport>)
        ensures
            resolved_view(r@) == resolved_items(index@, smi, items@),
    {
        let ghost ix = index@;
        let mut out: Vec<ResolvedImport> = Vec::new();
        let n = items.len();
        let mut i: usize = 0;
        while i < n
            invariant
                i <= n,
                n == items@.len(),
                ix == index@,
                resolved_view(out@) == resolved_items(ix, smi, items@.take(i as int)),
            decreases n - i,
        {
            assert(items@.take(i + 1).drop_last() =~= items@.take(i as int));
            let ghost before = out@;
            match &items[i] {
                ImportItem::Type_(name) => {
                    if smi < index.types.len() {
                        if let Some(found) = index.types[smi].get(name.0.as_str()) {
                            let kind = Self::to_sema_kind(&found.0);
                            out.push(ResolvedImport {
                                name: name.0.clone(),
                                location: TypeLocation { module: smi as u32, kind, index: found.1 as u32 },
                            });
                        }
                    }
                },
                ImportItem::Trait(name) => {
                    if smi < index.traits.len() {
                        if let Some(d) = index.traits[smi].get(name.0.as_str()) {
                            out.push(ResolvedImport {
                                name: name.0.clone(),
                                location: TypeLocation { module: smi as u32, kind: TypeKind::Enum, index: d as u32 },
                            });
                        }
                    }
                },
            }
            assert(resolved_view(out@) =~= resolved_items(ix, smi, items@.take(i + 1)));
            i = i + 1;
        }
        assert(items@.take(n as int) =~= items@);
        out
    }

    /// The resolved imports, one group per import that resolves at least
    /// one item, in program order.
    fn import_resolutions(modules: &[ModuleDef], index: &Index) -> (r: Vec<ImportResolution>)
        ensures
            import_resolutions_view(r@) == import_resolutions_spec(modules@, index@, modules@.len()),
    {
        let ghost ix = index@;
        let mut out: Vec<ImportResolution> = Vec::new();
        let n = modules.len();
        let mut mi: usize = 0;
        while mi < n
            invariant
                mi <= n,
                n == modules@.len(),
                ix == index@,
                import_resolutions_view(out@) == import_resolutions_spec(modules@, ix, mi as nat),
            decreases n - mi,
        {
            let imps = &modules[mi].imports;
            let ghost base = import_resolutions_view(out@);
            let m = imps.len();
            let mut ii: usize = 0;
            while ii < m
                invariant
                    ii <= m,
                    m == imps@.len(),
                    ix == index@,
                    import_resolutions_view(out@) == base + module_import_resolutions(ix, mi as int, imps@.take(ii as int)),
                decreases m - ii,
            {
                assert(imps@.take(ii + 1).drop_last() =~= imps@.take(ii as int));
                let ghost before = out@;
                if let Some(src_mi) = index.modules.get(imps[ii].source.0.as_str()) {
                    let resolved = Self::resolve_items(index, src_mi, &imps[ii].names);
                    if resolved.len() > 0 {
                        out.push(ImportResolution { source_module: mi as u32, resolved });
                        assert(import_resolutions_view(out@) =~= import_resolutions_view(before).push(
                            (mi as u32, resolved_view(out@[out@.len() - 1].resolved@)),
                        ));
                    }
                }
                assert(import_resolutions_view(out@) =~= base + module_import_resolutions(ix, mi as int, imps@.take(ii + 1)));
                ii = ii + 1;
            }
            assert(imps@.take(m as int) =~= imps@);
            mi = mi + 1;
        }
        out
    }

    fn build_resolution(modules: &[ModuleDef], index: &Index) -> (r: ResolutionTable)
        requires
            index@.types.len() <= u32::MAX,
            index@.traits.len() <= u32::MAX,
            index@.arities.len() <= u32::MAX,
        ensures
            resolution_of(modules@, index@, r),
    {
        ResolutionTable {
            modules: Self::module_entries(index),
            types: Self::type_entries(index),
            traits: Self::trait_entries(index),
            impls: Self::impl_entries(modules, index),
            generics: Self::generic_entries(index),
            imports: Self::import_resolutions(modules, index),
        }
    }

    /// The program: the modules, handed on as they are, and their
    /// resolution table.
    pub fn emit(modules: Vec<ModuleDef>, index: &Index) -> (p: Program)
        requires
            index@.types.len() <= u32::MAX,
            index@.traits.len() <= u32::MAX,
            index@.arities.len() <= u32::MAX,
        ensures
            p.modules@ == modules@,
            resolution_of(modules@, index@, p.resolution),
    {
        let resolution = Self::build_resolution(modules.as_slice(), index);
        Program { modules, resolution }
    }
}

} // verus!
