//! What the index records of each module's own definitions.

use vstd::prelude::*;

use crate::ast::{EnumDef, ImportItem, ModuleDef, ModuleImport, StructDef};
use crate::index::{
    arity_regs, const_arity_regs, enum_arity_regs, import_deps, imported_trait_names, imported_type_names, index_of, item_trait_names,
    item_type_names, module_map, newtype_arity_regs, struct_arity_regs, trait_arity_regs, enum_regs, struct_regs, newtype_regs,
    const_regs, type_regs, trait_regs, TypeKind,
};
use crate::table::{lemma_map_of_last, map_of};
use crate::verify::{const_def_names, enum_def_names, newtype_def_names, struct_def_names, trait_decl_names};

verus! {

/// The names of a module's top-level definitions: its enums, structs,
/// newtypes, consts and traits, in that order.
pub open spec fn definition_names(m: ModuleDef) -> Seq<Seq<char>> {
    enum_def_names(m.enums@) + struct_def_names(m.structs@) + newtype_def_names(m.newtypes@) + const_def_names(m.consts@)
        + trait_decl_names(m.trait_decls@)
}

/// Exactly one top-level definition of the module has this name.
pub open spec fn defined_once(m: ModuleDef, n: Seq<char>) -> bool {
    &&& definition_names(m).contains(n)
    &&& forall|i: int, j: int| 0 <= i < definition_names(m).len() && 0 <= j < definition_names(m).len()
        && #[trigger] definition_names(m)[i] == n && #[trigger] definition_names(m)[j] == n ==> i == j
}

proof fn lemma_arity_regs_names(m: ModuleDef)
    ensures
        arity_regs(m).len() == definition_names(m).len(),
        forall|i: int| 0 <= i < arity_regs(m).len() ==> (#[trigger] arity_regs(m)[i]).0 == definition_names(m)[i],
{
    let a = enum_arity_regs(m.enums@);
    let b = struct_arity_regs(m.structs@);
    let c = newtype_arity_regs(m.newtypes@);
    let d = const_arity_regs(m.consts@);
    let e = trait_arity_regs(m.trait_decls@);
    let r = arity_regs(m);
    let names = definition_names(m);
    assert forall|i: int| 0 <= i < r.len() implies (#[trigger] r[i]).0 == names[i] by {
        if i < a.len() {
        } else if i < a.len() + b.len() {
        } else if i < a.len() + b.len() + c.len() {
        } else if i < a.len() + b.len() + c.len() + d.len() {
        } else {
        }
    }
}

proof fn lemma_arity_at(m: ModuleDef, j: int)
    requires
        0 <= j < arity_regs(m).len(),
        defined_once(m, definition_names(m)[j]),
    ensures
        crate::table::map_of(arity_regs(m)).contains_key(definition_names(m)[j]),
        crate::table::map_of(arity_regs(m))[definition_names(m)[j]] == arity_regs(m)[j].1,
{
    lemma_arity_regs_names(m);
    let r = arity_regs(m);
    let names = definition_names(m);
    assert forall|l: int| j < l < r.len() implies r[l].0 != r[j].0 by {
        assert(r[l].0 == names[l]);
        assert(r[j].0 == names[j]);
        if names[l] == names[j] {
            assert(l == j);
        }
    }
    lemma_map_of_last(r, j);
}

/// The index records, as the number of type arguments a top-level enum,
/// struct, newtype or trait takes, the number of generic parameters it
/// declares, wherever no other top-level definition of its module shares
/// its name.
pub proof fn lemma_index_arity_counts_parameters(ms: Seq<ModuleDef>, mi: int)
    requires
        0 <= mi < ms.len(),
    ensures
        forall|k: int| 0 <= k < ms[mi].enums@.len() && defined_once(ms[mi], (#[trigger] ms[mi].enums@[k]).name.0@)
            ==> index_of(ms).arities[mi].contains_key(ms[mi].enums@[k].name.0@)
            && index_of(ms).arities[mi][ms[mi].enums@[k].name.0@] == ms[mi].enums@[k].generic_params.len(),
        forall|k: int| 0 <= k < ms[mi].structs@.len() && defined_once(ms[mi], (#[trigger] ms[mi].structs@[k]).name.0@)
            ==> index_of(ms).arities[mi].contains_key(ms[mi].structs@[k].name.0@)
            && index_of(ms).arities[mi][ms[mi].structs@[k].name.0@] == ms[mi].structs@[k].generic_params.len(),
        forall|k: int| 0 <= k < ms[mi].newtypes@.len() && defined_once(ms[mi], (#[trigger] ms[mi].newtypes@[k]).name.0@)
            ==> index_of(ms).arities[mi].contains_key(ms[mi].newtypes@[k].name.0@)
            && index_of(ms).arities[mi][ms[mi].newtypes@[k].name.0@] == ms[mi].newtypes@[k].generic_params.len(),
        forall|k: int| 0 <= k < ms[mi].trait_decls@.len() && defined_once(ms[mi], (#[trigger] ms[mi].trait_decls@[k]).name.0@)
            ==> index_of(ms).arities[mi].contains_key(ms[mi].trait_decls@[k].name.0@)
            && index_of(ms).arities[mi][ms[mi].trait_decls@[k].name.0@] == ms[mi].trait_decls@[k].generic_params.len(),
{
    let m = ms[mi];
    let ne = m.enums@.len();
    let ns = m.structs@.len();
    let nn = m.newtypes@.len();
    let nc = m.consts@.len();
    assert(index_of(ms).arities[mi] == crate::table::map_of(arity_regs(m)));
    assert forall|k: int| 0 <= k < m.enums@.len() && defined_once(m, (#[trigger] m.enums@[k]).name.0@)
        implies crate::table::map_of(arity_regs(m)).contains_key(m.enums@[k].name.0@)
        && crate::table::map_of(arity_regs(m))[m.enums@[k].name.0@] == m.enums@[k].generic_params.len() by {
        assert(definition_names(m)[k] == m.enums@[k].name.0@);
        lemma_arity_at(m, k);
    }
    assert forall|k: int| 0 <= k < m.structs@.len() && defined_once(m, (#[trigger] m.structs@[k]).name.0@)
        implies crate::table::map_of(arity_regs(m)).contains_key(m.structs@[k].name.0@)
        && crate::table::map_of(arity_regs(m))[m.structs@[k].name.0@] == m.structs@[k].generic_params.len() by {
        assert(definition_names(m)[ne + k] == m.structs@[k].name.0@);
        lemma_arity_at(m, ne + k);
    }
    assert forall|k: int| 0 <= k < m.newtypes@.len() && defined_once(m, (#[trigger] m.newtypes@[k]).name.0@)
        implies crate::table::map_of(arity_regs(m)).contains_key(m.newtypes@[k].name.0@)
        && crate::table::map_of(arity_regs(m))[m.newtypes@[k].name.0@] == m.newtypes@[k].generic_params.len() by {
        assert(definition_names(m)[ne + ns + k] == m.newtypes@[k].name.0@);
        lemma_arity_at(m, ne + ns + k);
    }
    assert forall|k: int| 0 <= k < m.trait_decls@.len() && defined_once(m, (#[trigger] m.trait_decls@[k]).name.0@)
        implies crate::table::map_of(arity_regs(m)).contains_key(m.trait_decls@[k].name.0@)
        && crate::table::map_of(arity_regs(m))[m.trait_decls@[k].name.0@] == m.trait_decls@[k].generic_params.len() by {
        assert(definition_names(m)[ne + ns + nn + nc + k] == m.trait_decls@[k].name.0@);
        lemma_arity_at(m, ne + ns + nn + nc + k);
    }
}

/// The item brings in the name as a trait (`want_trait`) or as a type.
pub open spec fn item_brings(it: ImportItem, n: Seq<char>, want_trait: bool) -> bool {
    match it {
        ImportItem::Type_(x) => !want_trait && x.0@ == n,
        ImportItem::Trait(x) => want_trait && x.0@ == n,
    }
}

/// Some import of the module at `mi` whose source is a module of the
/// program brings in the name, as a trait (`want_trait`) or as a type.
pub open spec fn module_imports_name(ms: Seq<ModuleDef>, mi: int, n: Seq<char>, want_trait: bool) -> bool {
    exists|i: int, j: int| 0 <= i < ms[mi].imports@.len() && 0 <= j < ms[mi].imports@[i].names@.len()
        && module_map(ms).contains_key(ms[mi].imports@[i].source.0@)
        && #[trigger] item_brings(ms[mi].imports@[i].names@[j], n, want_trait)
}

proof fn lemma_concat_contains(a: Seq<Seq<char>>, b: Seq<Seq<char>>, x: Seq<char>)
    ensures
        (a + b).contains(x) <==> a.contains(x) || b.contains(x),
{
    if (a + b).contains(x) {
        let k = choose|k: int| 0 <= k < (a + b).len() && (a + b)[k] == x;
        if k >= a.len() {
            assert(b[k - a.len()] == x);
        }
    }
    if a.contains(x) {
        let k = choose|k: int| 0 <= k < a.len() && a[k] == x;
        assert((a + b)[k] == x);
    }
    if b.contains(x) {
        let k = choose|k: int| 0 <= k < b.len() && b[k] == x;
        assert((a + b)[a.len() + k] == x);
    }
}

proof fn lemma_brings_split(items: Seq<ImportItem>, n: Seq<char>, w: bool)
    requires
        items.len() > 0,
    ensures
        (exists|j: int| 0 <= j < items.len() && #[trigger] item_brings(items[j], n, w))
            <==> ((exists|j: int| 0 <= j < items.drop_last().len() && #[trigger] item_brings(items.drop_last()[j], n, w))
            || item_brings(items[items.len() - 1], n, w)),
{
    let init = items.drop_last();
    let k = items.len() - 1;
    if exists|j: int| 0 <= j < items.len() && #[trigger] item_brings(items[j], n, w) {
        let j = choose|j: int| 0 <= j < items.len() && #[trigger] item_brings(items[j], n, w);
        if j < k {
            assert(init[j] == items[j]);
        }
    }
    if exists|j: int| 0 <= j < init.len() && #[trigger] item_brings(init[j], n, w) {
        let j = choose|j: int| 0 <= j < init.len() && #[trigger] item_brings(init[j], n, w);
        assert(init[j] == items[j]);
    }
}

proof fn lemma_item_names_contain(items: Seq<ImportItem>, n: Seq<char>)
    ensures
        item_type_names(items).contains(n) <==> exists|j: int| 0 <= j < items.len() && #[trigger] item_brings(items[j], n, false),
        item_trait_names(items).contains(n) <==> exists|j: int| 0 <= j < items.len() && #[trigger] item_brings(items[j], n, true),
    decreases items.len(),
{
    if items.len() > 0 {
        let init = items.drop_last();
        let k = items.len() - 1;
        lemma_item_names_contain(init, n);
        assert(items.last() == items[k]);
        lemma_brings_split(items, n, false);
        lemma_brings_split(items, n, true);
        match items[k] {
            ImportItem::Type_(x) => {
                assert(item_type_names(items) =~= item_type_names(init) + seq![x.0@]);
                assert(item_trait_names(items) == item_trait_names(init));
                lemma_concat_contains(item_type_names(init), seq![x.0@], n);
                assert(seq![x.0@].contains(n) <==> x.0@ == n) by {
                    if x.0@ == n {
                        assert(seq![x.0@][0] == n);
                    }
                }
            },
            ImportItem::Trait(x) => {
                assert(item_trait_names(items) =~= item_trait_names(init) + seq![x.0@]);
                assert(item_type_names(items) == item_type_names(init));
                lemma_concat_contains(item_trait_names(init), seq![x.0@], n);
                assert(seq![x.0@].contains(n) <==> x.0@ == n) by {
                    if x.0@ == n {
                        assert(seq![x.0@][0] == n);
                    }
                }
            },
        }
    }
}

/// An import brings in the name from a module of the program.
pub open spec fn imports_bring(mods: Map<Seq<char>, usize>, imps: Seq<ModuleImport>, n: Seq<char>, want_trait: bool) -> bool {
    exists|i: int, j: int| 0 <= i < imps.len() && 0 <= j < imps[i].names@.len() && mods.contains_key(imps[i].source.0@)
        && #[trigger] item_brings(imps[i].names@[j], n, want_trait)
}

proof fn lemma_imported_names_contain(mods: Map<Seq<char>, usize>, imps: Seq<ModuleImport>, n: Seq<char>)
    ensures
        imported_type_names(mods, imps).contains(n) <==> imports_bring(mods, imps, n, false),
        imported_trait_names(mods, imps).contains(n) <==> imports_bring(mods, imps, n, true),
    decreases imps.len(),
{
    if imps.len() > 0 {
        let init = imps.drop_last();
        let k = imps.len() - 1;
        let last = imps[k];
        assert(imps.last() == last);
        lemma_imported_names_contain(mods, init, n);
        lemma_item_names_contain(last.names@, n);
        lemma_concat_contains(imported_type_names(mods, init), item_type_names(last.names@), n);
        lemma_concat_contains(imported_trait_names(mods, init), item_trait_names(last.names@), n);
        if imports_bring(mods, imps, n, false) {
            let (i, j) = choose|i: int, j: int| 0 <= i < imps.len() && 0 <= j < imps[i].names@.len() && mods.contains_key(imps[i].source.0@)
                && #[trigger] item_brings(imps[i].names@[j], n, false);
            if i < k {
                assert(init[i] == imps[i]);
            }
        }
        if imports_bring(mods, init, n, false) {
            let (i, j) = choose|i: int, j: int| 0 <= i < init.len() && 0 <= j < init[i].names@.len() && mods.contains_key(init[i].source.0@)
                && #[trigger] item_brings(init[i].names@[j], n, false);
            assert(init[i] == imps[i]);
        }
        if mods.contains_key(last.source.0@) && exists|j: int| 0 <= j < last.names@.len() && #[trigger] item_brings(last.names@[j], n, false) {
            let j = choose|j: int| 0 <= j < last.names@.len() && #[trigger] item_brings(last.names@[j], n, false);
            assert(item_brings(imps[k].names@[j], n, false));
        }
        if imports_bring(mods, imps, n, true) {
            let (i, j) = choose|i: int, j: int| 0 <= i < imps.len() && 0 <= j < imps[i].names@.len() && mods.contains_key(imps[i].source.0@)
                && #[trigger] item_brings(imps[i].names@[j], n, true);
            if i < k {
                assert(init[i] == imps[i]);
            }
        }
        if imports_bring(mods, init, n, true) {
            let (i, j) = choose|i: int, j: int| 0 <= i < init.len() && 0 <= j < init[i].names@.len() && mods.contains_key(init[i].source.0@)
                && #[trigger] item_brings(init[i].names@[j], n, true);
            assert(init[i] == imps[i]);
        }
        if mods.contains_key(last.source.0@) && exists|j: int| 0 <= j < last.names@.len() && #[trigger] item_brings(last.names@[j], n, true) {
            let j = choose|j: int| 0 <= j < last.names@.len() && #[trigger] item_brings(last.names@[j], n, true);
            assert(item_brings(imps[k].names@[j], n, true));
        }
    }
}

proof fn lemma_import_deps_contain(mods: Map<Seq<char>, usize>, imps: Seq<ModuleImport>, v: usize)
    ensures
        import_deps(mods, imps).contains(v) <==> exists|i: int| 0 <= i < imps.len() && mods.contains_key((#[trigger] imps[i]).source.0@)
            && mods[imps[i].source.0@] == v,
    decreases imps.len(),
{
    if imps.len() > 0 {
        let init = imps.drop_last();
        let k = imps.len() - 1;
        assert(imps.last() == imps[k]);
        lemma_import_deps_contain(mods, init, v);
        let rest = import_deps(mods, init);
        let src = imps[k].source.0@;
        if mods.contains_key(src) && !rest.contains(mods[src]) {
            let r = rest.push(mods[src]);
            if r.contains(v) {
                let t = choose|t: int| 0 <= t < r.len() && r[t] == v;
                if t < rest.len() {
                    assert(rest[t] == v);
                }
            }
            if rest.contains(v) {
                let t = choose|t: int| 0 <= t < rest.len() && rest[t] == v;
                assert(r[t] == v);
            }
            if v == mods[src] {
                assert(r[rest.len() as int] == v);
            }
        }
        if exists|i: int| 0 <= i < imps.len() && mods.contains_key((#[trigger] imps[i]).source.0@) && mods[imps[i].source.0@] == v {
            let i = choose|i: int| 0 <= i < imps.len() && mods.contains_key((#[trigger] imps[i]).source.0@) && mods[imps[i].source.0@] == v;
            if i < k {
                assert(init[i] == imps[i]);
            }
        }
        if exists|i: int| 0 <= i < init.len() && mods.contains_key((#[trigger] init[i]).source.0@) && mods[init[i].source.0@] == v {
            let i = choose|i: int| 0 <= i < init.len() && mods.contains_key((#[trigger] init[i]).source.0@) && mods[init[i].source.0@] == v;
            assert(init[i] == imps[i]);
        }
    }
}

/// What the index of a program records of each module's scope and
/// imports: a type is visible in the module exactly when the module
/// defines it or one of its imports from a module of the program brings it
/// in as a type; a trait likewise; and the module imports from exactly the
/// modules of the program that its imports name.
pub proof fn lemma_index_scopes_follow_imports(ms: Seq<ModuleDef>, mi: int)
    requires
        0 <= mi < ms.len(),
    ensures
        forall|n: Seq<char>| #[trigger] index_of(ms).visible_types[mi].contains(n)
            <==> (index_of(ms).types[mi].contains_key(n) || module_imports_name(ms, mi, n, false)),
        forall|n: Seq<char>| #[trigger] index_of(ms).visible_traits[mi].contains(n)
            <==> (index_of(ms).traits[mi].contains_key(n) || module_imports_name(ms, mi, n, true)),
        forall|v: usize| #[trigger] index_of(ms).import_graph[mi].contains(v) <==> exists|i: int| 0 <= i < ms[mi].imports@.len()
            && module_map(ms).contains_key((#[trigger] ms[mi].imports@[i]).source.0@) && module_map(ms)[ms[mi].imports@[i].source.0@] == v,
{
    let mods = module_map(ms);
    let imps = ms[mi].imports@;
    assert forall|n: Seq<char>| #[trigger] index_of(ms).visible_types[mi].contains(n)
        <==> (index_of(ms).types[mi].contains_key(n) || module_imports_name(ms, mi, n, false)) by {
        lemma_imported_names_contain(mods, imps, n);
        if imports_bring(mods, imps, n, false) {
            let (i, j) = choose|i: int, j: int| 0 <= i < imps.len() && 0 <= j < imps[i].names@.len() && mods.contains_key(imps[i].source.0@)
                && #[trigger] item_brings(imps[i].names@[j], n, false);
            assert(item_brings(ms[mi].imports@[i].names@[j], n, false));
        }
        if module_imports_name(ms, mi, n, false) {
            let (i, j) = choose|i: int, j: int| 0 <= i < ms[mi].imports@.len() && 0 <= j < ms[mi].imports@[i].names@.len()
                && module_map(ms).contains_key(ms[mi].imports@[i].source.0@)
                && #[trigger] item_brings(ms[mi].imports@[i].names@[j], n, false);
            assert(item_brings(imps[i].names@[j], n, false));
        }
    }
    assert forall|n: Seq<char>| #[trigger] index_of(ms).visible_traits[mi].contains(n)
        <==> (index_of(ms).traits[mi].contains_key(n) || module_imports_name(ms, mi, n, true)) by {
        lemma_imported_names_contain(mods, imps, n);
        if imports_bring(mods, imps, n, true) {
            let (i, j) = choose|i: int, j: int| 0 <= i < imps.len() && 0 <= j < imps[i].names@.len() && mods.contains_key(imps[i].source.0@)
                && #[trigger] item_brings(imps[i].names@[j], n, true);
            assert(item_brings(ms[mi].imports@[i].names@[j], n, true));
        }
        if module_imports_name(ms, mi, n, true) {
            let (i, j) = choose|i: int, j: int| 0 <= i < ms[mi].imports@.len() && 0 <= j < ms[mi].imports@[i].names@.len()
                && module_map(ms).contains_key(ms[mi].imports@[i].source.0@)
                && #[trigger] item_brings(ms[mi].imports@[i].names@[j], n, true);
            assert(item_brings(imps[i].names@[j], n, true));
        }
    }
    assert forall|v: usize| #[trigger] index_of(ms).import_graph[mi].contains(v) <==> exists|i: int| 0 <= i < ms[mi].imports@.len()
        && module_map(ms).contains_key((#[trigger] ms[mi].imports@[i]).source.0@) && module_map(ms)[ms[mi].imports@[i].source.0@] == v by {
        lemma_import_deps_contain(mods, imps, v);
    }
}

proof fn lemma_map_of_has<V>(s: Seq<(Seq<char>, V)>, i: int)
    requires
        0 <= i < s.len(),
    ensures
        map_of(s).contains_key(s[i].0),
    decreases s.len(),
{
    if i < s.len() - 1 {
        assert(s.drop_last()[i] == s[i]);
        lemma_map_of_has(s.drop_last(), i);
    }
}

proof fn lemma_enum_regs_has(es: Seq<EnumDef>, k: int)
    requires
        0 <= k < es.len(),
    ensures
        exists|p: int| 0 <= p < enum_regs(es).len() && (#[trigger] enum_regs(es)[p]).0 == es[k].name.0@,
    decreases es.len(),
{
    let init = es.drop_last();
    let a = enum_regs(init);
    if k == es.len() - 1 {
        assert(enum_regs(es)[a.len() as int].0 == es[k].name.0@);
    } else {
        lemma_enum_regs_has(init, k);
        let p = choose|p: int| 0 <= p < a.len() && (#[trigger] a[p]).0 == init[k].name.0@;
        assert(enum_regs(es)[p] == a[p]);
        assert(init[k] == es[k]);
    }
}

proof fn lemma_struct_regs_has(ss: Seq<StructDef>, k: int)
    requires
        0 <= k < ss.len(),
    ensures
        exists|p: int| 0 <= p < struct_regs(ss).len() && (#[trigger] struct_regs(ss)[p]).0 == ss[k].name.0@,
    decreases ss.len(),
{
    let init = ss.drop_last();
    let a = struct_regs(init);
    if k == ss.len() - 1 {
        assert(struct_regs(ss)[a.len() as int].0 == ss[k].name.0@);
    } else {
        lemma_struct_regs_has(init, k);
        let p = choose|p: int| 0 <= p < a.len() && (#[trigger] a[p]).0 == init[k].name.0@;
        assert(struct_regs(ss)[p] == a[p]);
        assert(init[k] == ss[k]);
    }
}

/// The index records every top-level definition of a module: each enum,
/// struct, newtype and const is a type of the module there, and each
/// trait a trait of it, recorded at its declaration where no other trait
/// of the module shares its name.
pub proof fn lemma_index_records_definitions(ms: Seq<ModuleDef>, mi: int)
    requires
        0 <= mi < ms.len(),
    ensures
        forall|k: int| 0 <= k < ms[mi].enums@.len() ==> index_of(ms).types[mi].contains_key((#[trigger] ms[mi].enums@[k]).name.0@),
        forall|k: int| 0 <= k < ms[mi].structs@.len() ==> index_of(ms).types[mi].contains_key((#[trigger] ms[mi].structs@[k]).name.0@),
        forall|k: int| 0 <= k < ms[mi].newtypes@.len() ==> index_of(ms).types[mi].contains_key((#[trigger] ms[mi].newtypes@[k]).name.0@),
        forall|k: int| 0 <= k < ms[mi].consts@.len() ==> index_of(ms).types[mi].contains_key((#[trigger] ms[mi].consts@[k]).name.0@),
        forall|k: int| 0 <= k < ms[mi].trait_decls@.len() ==> index_of(ms).traits[mi].contains_key((#[trigger] ms[mi].trait_decls@[k]).name.0@),
        forall|k: int| 0 <= k < ms[mi].trait_decls@.len() && (forall|j: int| 0 <= j < ms[mi].trait_decls@.len()
            && ms[mi].trait_decls@[j].name.0@ == (#[trigger] ms[mi].trait_decls@[k]).name.0@ ==> j == k)
            ==> index_of(ms).traits[mi][ms[mi].trait_decls@[k].name.0@] == k,
{
    let m = ms[mi];
    let a = enum_regs(m.enums@);
    let b = struct_regs(m.structs@);
    let c = newtype_regs(m.newtypes@);
    let d = const_regs(m.consts@);
    let t = type_regs(m);
    assert(index_of(ms).types[mi] == map_of(t));
    assert(index_of(ms).traits[mi] == map_of(trait_regs(m)));
    assert forall|k: int| 0 <= k < m.enums@.len() implies map_of(t).contains_key((#[trigger] m.enums@[k]).name.0@) by {
        lemma_enum_regs_has(m.enums@, k);
        let p = choose|p: int| 0 <= p < a.len() && (#[trigger] a[p]).0 == m.enums@[k].name.0@;
        assert(t[p] == a[p]);
        lemma_map_of_has(t, p);
    }
    assert forall|k: int| 0 <= k < m.structs@.len() implies map_of(t).contains_key((#[trigger] m.structs@[k]).name.0@) by {
        lemma_struct_regs_has(m.structs@, k);
        let p = choose|p: int| 0 <= p < b.len() && (#[trigger] b[p]).0 == m.structs@[k].name.0@;
        assert(t[a.len() + p] == b[p]);
        lemma_map_of_has(t, a.len() + p);
    }
    assert forall|k: int| 0 <= k < m.newtypes@.len() implies map_of(t).contains_key((#[trigger] m.newtypes@[k]).name.0@) by {
        assert(t[a.len() + b.len() + k] == c[k]);
        lemma_map_of_has(t, a.len() + b.len() + k);
    }
    assert forall|k: int| 0 <= k < m.consts@.len() implies map_of(t).contains_key((#[trigger] m.consts@[k]).name.0@) by {
        assert(t[a.len() + b.len() + c.len() + k] == d[k]);
        lemma_map_of_has(t, a.len() + b.len() + c.len() + k);
    }
    let tr = trait_regs(m);
    assert forall|k: int| 0 <= k < m.trait_decls@.len() implies map_of(tr).contains_key((#[trigger] m.trait_decls@[k]).name.0@) by {
        lemma_map_of_has(tr, k);
    }
    assert forall|k: int| 0 <= k < m.trait_decls@.len() && (forall|j: int| 0 <= j < m.trait_decls@.len()
        && m.trait_decls@[j].name.0@ == (#[trigger] m.trait_decls@[k]).name.0@ ==> j == k)
        implies map_of(tr)[m.trait_decls@[k].name.0@] == k by {
        assert forall|l: int| k < l < tr.len() implies tr[l].0 != tr[k].0 by {
            if tr[l].0 == tr[k].0 {
                assert(m.trait_decls@[l].name.0@ == m.trait_decls@[k].name.0@);
            }
        }
        lemma_map_of_last(tr, k);
        assert(m.trait_decls.len() == m.trait_decls@.len());
        assert(k <= usize::MAX);
        assert(tr[k] == (m.trait_decls@[k].name.0@, k as usize));
    }
}

} // verus!
