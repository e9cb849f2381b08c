//! What the library promises of a program it finds no problem in, and of
//! the resolution table it emits.

use vstd::prelude::*;

use crate::ast::{ConstDef, EnumChild, EnumDef, StructChild, TraitImplDef, ExportItem, GenericParamDef, ImportItem, LiteralValue, ModuleDef, ModuleImport, NewtypeDef, StructDef, TraitDeclDef, TypeExpr};
use crate::emit::{
    first_module_binding, generics_listed, impl_entries_spec, import_binding, import_resolutions_view, module_entries_view, impl_type_name, module_impl_entries, resolution_of, trait_entries_view, trait_entry_at,
    trait_location_of, trait_location_spec, type_entries_view, type_entry_at, type_location_of, type_location_spec,
};
use crate::index::{
    const_regs, enum_regs, exported_trait_names, exported_type_names, import_cycles, index_of, module_map, nested_enum_regs,
    nested_position, nested_struct_regs, newtype_regs, struct_regs, trait_regs, type_regs, IndexView, TypeKind,
};
use crate::program::{ImplEntry, ResolutionTable, TraitLocation, TypeLocation};
use crate::table::{lemma_bound_name_has_live, lemma_map_of_last, map_of};
use crate::verify::{
    const_def_names, const_errors, const_scope_errors, consts_literal_errors, cycle_errors, enum_def_names, enum_generic_errors,
    enum_scope_errors, export_errors, generic_uniqueness_errors, import_errors, import_tier_errors, imported_before,
    int_in_range, item_errors, item_is_exported, item_name, item_names, link_errors, literal_errors, literal_fits_type,
    module_scope_errors, newtype_def_names, newtype_generic_errors, newtype_scope_errors, param_names, scope_errors,
    struct_def_names, struct_generic_errors, struct_scope_errors, structure_errors, trait_decl_names, trait_scope_errors,
    type_graph_errors, verify_spec,
};

verus! {

/// The module exports the item, as the same kind of item.
pub open spec fn exports_item(m: ModuleDef, it: ImportItem) -> bool {
    match it {
        ImportItem::Type_(n) => exported_type_names(m.exports@).contains(n.0@),
        ImportItem::Trait(n) => exported_trait_names(m.exports@).contains(n.0@),
    }
}

/// Every import names a module of the program, and that module exports
/// every item imported from it, as the same kind of item.
pub open spec fn imports_resolve(ms: Seq<ModuleDef>) -> bool {
    forall|mi: int, i: int| 0 <= mi < ms.len() && 0 <= i < ms[mi].imports@.len() ==>
        module_map(ms).contains_key((#[trigger] ms[mi].imports@[i]).source.0@)
        && forall|j: int| 0 <= j < ms[mi].imports@[i].names@.len() ==> exports_item(
            ms[module_map(ms)[ms[mi].imports@[i].source.0@] as int],
            #[trigger] ms[mi].imports@[i].names@[j],
        )
}

/// Every name a module exports is a type or a trait it defines, as the
/// export says (nested definitions count as defined at module level).
pub open spec fn exports_defined(ms: Seq<ModuleDef>) -> bool {
    forall|mi: int, e: int| 0 <= mi < ms.len() && 0 <= e < ms[mi].exports@.len() ==> match #[trigger] ms[mi].exports@[e] {
        ExportItem::Type_(n) => map_of(type_regs(ms[mi])).contains_key(n.0@),
        ExportItem::Trait(n) => map_of(trait_regs(ms[mi])).contains_key(n.0@),
    }
}

/// No module imports one name twice, whether from one module or from two.
pub open spec fn imports_unique(ms: Seq<ModuleDef>) -> bool {
    forall|mi: int, i1: int, j1: int, i2: int, j2: int|
        0 <= mi < ms.len() && 0 <= i1 < ms[mi].imports@.len() && 0 <= i2 < ms[mi].imports@.len()
            && 0 <= j1 < ms[mi].imports@[i1].names@.len() && 0 <= j2 < ms[mi].imports@[i2].names@.len()
            && (i1 != i2 || j1 != j2) ==> item_name(#[trigger] ms[mi].imports@[i1].names@[j1]) != item_name(
            #[trigger] ms[mi].imports@[i2].names@[j2],
        )
}

proof fn lemma_link_errors_clean(ms: Seq<ModuleDef>, ix: IndexView, n: nat)
    requires
        link_errors(ms, ix, n).len() == 0,
        n <= ms.len(),
    ensures
        forall|k: int| 0 <= k < n ==> (#[trigger] export_errors(ix, k, ms[k].name.0@, ms[k].exports@)).len() == 0
            && import_errors(ix, ms[k].name.0@, ms[k].imports@).len() == 0,
    decreases n,
{
    if n > 0 {
        lemma_link_errors_clean(ms, ix, (n - 1) as nat);
    }
}

proof fn lemma_export_errors_clean(ix: IndexView, mi: int, mn: Seq<char>, es: Seq<ExportItem>)
    requires
        export_errors(ix, mi, mn, es).len() == 0,
    ensures
        forall|e: int| 0 <= e < es.len() ==> match #[trigger] es[e] {
            ExportItem::Type_(n) => 0 <= mi < ix.types.len() && ix.types[mi].contains_key(n.0@),
            ExportItem::Trait(n) => 0 <= mi < ix.traits.len() && ix.traits[mi].contains_key(n.0@),
        },
    decreases es.len(),
{
    if es.len() > 0 {
        let init = es.drop_last();
        lemma_export_errors_clean(ix, mi, mn, init);
        assert forall|e: int| 0 <= e < es.len() implies match #[trigger] es[e] {
            ExportItem::Type_(n) => 0 <= mi < ix.types.len() && ix.types[mi].contains_key(n.0@),
            ExportItem::Trait(n) => 0 <= mi < ix.traits.len() && ix.traits[mi].contains_key(n.0@),
        } by {
            if e < es.len() - 1 {
                assert(es[e] == init[e]);
            } else {
                assert(es[e] == es.last());
            }
        }
    }
}

proof fn lemma_item_errors_clean(
    ix: IndexView,
    mn: Seq<char>,
    source: Seq<char>,
    smi: usize,
    seen: Set<Seq<char>>,
    its: Seq<ImportItem>,
)
    requires
        item_errors(ix, mn, source, smi, seen, its).len() == 0,
    ensures
        forall|j: int| 0 <= j < its.len() ==> item_is_exported(ix, smi, #[trigger] its[j])
            && !(seen + item_names(its.take(j)).to_set()).contains(item_name(its[j])),
    decreases its.len(),
{
    if its.len() > 0 {
        let init = its.drop_last();
        lemma_item_errors_clean(ix, mn, source, smi, seen, init);
        assert forall|j: int| 0 <= j < its.len() implies item_is_exported(ix, smi, #[trigger] its[j])
            && !(seen + item_names(its.take(j)).to_set()).contains(item_name(its[j])) by {
            if j < its.len() - 1 {
                assert(its[j] == init[j]);
                assert(its.take(j) =~= init.take(j));
            } else {
                assert(its[j] == its.last());
                assert(its.take(j) =~= init);
            }
        }
    }
}

proof fn lemma_import_errors_clean(ix: IndexView, mn: Seq<char>, imps: Seq<ModuleImport>)
    requires
        import_errors(ix, mn, imps).len() == 0,
    ensures
        forall|i: int| 0 <= i < imps.len() ==> ix.modules.contains_key((#[trigger] imps[i]).source.0@)
            && item_errors(ix, mn, imps[i].source.0@, ix.modules[imps[i].source.0@], imported_before(ix, imps.take(i)),
            imps[i].names@).len() == 0,
    decreases imps.len(),
{
    if imps.len() > 0 {
        let init = imps.drop_last();
        lemma_import_errors_clean(ix, mn, init);
        assert forall|i: int| 0 <= i < imps.len() implies ix.modules.contains_key((#[trigger] imps[i]).source.0@)
            && item_errors(ix, mn, imps[i].source.0@, ix.modules[imps[i].source.0@], imported_before(ix, imps.take(i)),
            imps[i].names@).len() == 0 by {
            if i < imps.len() - 1 {
                assert(imps[i] == init[i]);
                assert(imps.take(i) =~= init.take(i));
            } else {
                assert(imps[i] == imps.last());
                assert(imps.take(i) =~= init);
            }
        }
    }
}

/// The names that the imports before position `i` bring in include every
/// name imported from an existing module there.
proof fn lemma_imported_before_contains(ix: IndexView, imps: Seq<ModuleImport>, i: int, j: int)
    requires
        0 <= i < imps.len(),
        0 <= j < imps[i].names@.len(),
        ix.modules.contains_key(imps[i].source.0@),
    ensures
        imported_before(ix, imps).contains(item_name(imps[i].names@[j])),
    decreases imps.len(),
{
    if i < imps.len() - 1 {
        lemma_imported_before_contains(ix, imps.drop_last(), i, j);
    } else {
        assert(item_names(imps[i].names@)[j] == item_name(imps[i].names@[j]));
        assert(item_names(imps[i].names@).to_set().contains(item_name(imps[i].names@[j])));
    }
}

/// Two imports of one module, the second at `(i2, j2)` after the first at
/// `(i1, j1)`, name different things, given the program is clean.
proof fn lemma_later_import_differs(
    ix: IndexView,
    mn: Seq<char>,
    imps: Seq<ModuleImport>,
    i1: int,
    j1: int,
    i2: int,
    j2: int,
)
    requires
        import_errors(ix, mn, imps).len() == 0,
        0 <= i1 <= i2 < imps.len(),
        0 <= j1 < imps[i1].names@.len(),
        0 <= j2 < imps[i2].names@.len(),
        i1 < i2 || j1 < j2,
    ensures
        item_name(imps[i1].names@[j1]) != item_name(imps[i2].names@[j2]),
{
    lemma_import_errors_clean(ix, mn, imps);
    let second = imps[i2];
    let seen = imported_before(ix, imps.take(i2));
    lemma_item_errors_clean(ix, mn, second.source.0@, ix.modules[second.source.0@], seen, second.names@);
    assert(!(seen + item_names(second.names@.take(j2)).to_set()).contains(item_name(second.names@[j2])));
    if i1 < i2 {
        assert(imps.take(i2)[i1] == imps[i1]);
        lemma_imported_before_contains(ix, imps.take(i2), i1, j1);
    } else {
        assert(item_names(second.names@.take(j2))[j1] == item_name(second.names@[j1]));
        assert(item_names(second.names@.take(j2)).to_set().contains(item_name(second.names@[j1])));
    }
}

/// A program in which verification finds no problem links: there is no
/// import cycle, every export names a definition of its module, every
/// import names a module of the program that exports each imported item
/// as that kind of item, and no module imports a name twice.
pub proof fn lemma_clean_program_links(ms: Seq<ModuleDef>)
    requires
        verify_spec(ms, index_of(ms)).len() == 0,
    ensures
        import_cycles(index_of(ms).import_graph).len() == 0,
        exports_defined(ms),
        imports_resolve(ms),
        imports_unique(ms),
{
    let ix = index_of(ms);
    assert(import_tier_errors(ms, ix).len() == 0) by {
        assert(verify_spec(ms, ix).len() >= import_tier_errors(ms, ix).len());
    }
    lemma_module_tier_clean_links(ms);
}

/// The module tier finds no problem exactly when the program links: there
/// is no import cycle, every export names a definition of its module, every
/// import names a module of the program that exports each imported item as
/// that kind of item, and no module imports a name twice.
pub proof fn lemma_module_tier_clean_iff_links(ms: Seq<ModuleDef>)
    ensures
        import_tier_errors(ms, index_of(ms)).len() == 0 <==> (import_cycles(index_of(ms).import_graph).len() == 0
            && exports_defined(ms) && imports_resolve(ms) && imports_unique(ms)),
{
    if import_tier_errors(ms, index_of(ms)).len() == 0 {
        lemma_module_tier_clean_links(ms);
    }
    if import_cycles(index_of(ms).import_graph).len() == 0 && exports_defined(ms) && imports_resolve(ms) && imports_unique(ms) {
        lemma_linking_program_passes_tier_one(ms);
    }
}

proof fn lemma_module_tier_clean_links(ms: Seq<ModuleDef>)
    requires
        import_tier_errors(ms, index_of(ms)).len() == 0,
    ensures
        import_cycles(index_of(ms).import_graph).len() == 0,
        exports_defined(ms),
        imports_resolve(ms),
        imports_unique(ms),
{
    let ix = index_of(ms);
    assert(cycle_errors(ms, import_cycles(ix.import_graph)).len() == import_cycles(ix.import_graph).len());
    lemma_link_errors_clean(ms, ix, ms.len());
    crate::verify::lemma_built_index_fits(ms);
    assert forall|mi: int, e: int| 0 <= mi < ms.len() && 0 <= e < ms[mi].exports@.len() implies match #[trigger] ms[mi].exports@[e] {
        ExportItem::Type_(n) => map_of(type_regs(ms[mi])).contains_key(n.0@),
        ExportItem::Trait(n) => map_of(trait_regs(ms[mi])).contains_key(n.0@),
    } by {
        assert(export_errors(ix, mi, ms[mi].name.0@, ms[mi].exports@).len() == 0);
        lemma_export_errors_clean(ix, mi, ms[mi].name.0@, ms[mi].exports@);
    }
    assert forall|mi: int, i: int| 0 <= mi < ms.len() && 0 <= i < ms[mi].imports@.len() implies
        module_map(ms).contains_key((#[trigger] ms[mi].imports@[i]).source.0@)
        && forall|j: int| 0 <= j < ms[mi].imports@[i].names@.len() ==> exports_item(
            ms[module_map(ms)[ms[mi].imports@[i].source.0@] as int],
            #[trigger] ms[mi].imports@[i].names@[j],
        ) by {
        let imps = ms[mi].imports@;
        assert(export_errors(ix, mi, ms[mi].name.0@, ms[mi].exports@).len() == 0);
        lemma_import_errors_clean(ix, ms[mi].name.0@, imps);
        let imp = imps[i];
        let smi = ix.modules[imp.source.0@];
        lemma_item_errors_clean(ix, ms[mi].name.0@, imp.source.0@, smi, imported_before(ix, imps.take(i)), imp.names@);
        assert(smi < ms.len());
        assert forall|j: int| 0 <= j < imp.names@.len() implies exports_item(ms[smi as int], #[trigger] imp.names@[j]) by {
            assert(item_is_exported(ix, smi, imp.names@[j]));
        }
    }
    assert forall|mi: int, i1: int, j1: int, i2: int, j2: int|
        0 <= mi < ms.len() && 0 <= i1 < ms[mi].imports@.len() && 0 <= i2 < ms[mi].imports@.len()
            && 0 <= j1 < ms[mi].imports@[i1].names@.len() && 0 <= j2 < ms[mi].imports@[i2].names@.len()
            && (i1 != i2 || j1 != j2) implies item_name(#[trigger] ms[mi].imports@[i1].names@[j1]) != item_name(
            #[trigger] ms[mi].imports@[i2].names@[j2],
        ) by {
        let imps = ms[mi].imports@;
        assert(export_errors(ix, mi, ms[mi].name.0@, ms[mi].exports@).len() == 0);
        if i1 < i2 || (i1 == i2 && j1 < j2) {
            lemma_later_import_differs(ix, ms[mi].name.0@, imps, i1, j1, i2, j2);
        } else {
            lemma_later_import_differs(ix, ms[mi].name.0@, imps, i2, j2, i1, j1);
        }
    }
}

proof fn lemma_export_errors_empty(ix: IndexView, mi: int, mn: Seq<char>, es: Seq<ExportItem>)
    requires
        forall|e: int| 0 <= e < es.len() ==> match #[trigger] es[e] {
            ExportItem::Type_(n) => 0 <= mi < ix.types.len() && ix.types[mi].contains_key(n.0@),
            ExportItem::Trait(n) => 0 <= mi < ix.traits.len() && ix.traits[mi].contains_key(n.0@),
        },
    ensures
        export_errors(ix, mi, mn, es).len() == 0,
    decreases es.len(),
{
    if es.len() > 0 {
        let init = es.drop_last();
        assert forall|e: int| 0 <= e < init.len() implies match #[trigger] init[e] {
            ExportItem::Type_(n) => 0 <= mi < ix.types.len() && ix.types[mi].contains_key(n.0@),
            ExportItem::Trait(n) => 0 <= mi < ix.traits.len() && ix.traits[mi].contains_key(n.0@),
        } by {
            assert(init[e] == es[e]);
        }
        lemma_export_errors_empty(ix, mi, mn, init);
        assert(es.last() == es[es.len() - 1]);
    }
}

proof fn lemma_item_errors_empty(
    ix: IndexView,
    mn: Seq<char>,
    source: Seq<char>,
    smi: usize,
    seen: Set<Seq<char>>,
    its: Seq<ImportItem>,
)
    requires
        forall|j: int| 0 <= j < its.len() ==> item_is_exported(ix, smi, #[trigger] its[j])
            && !(seen + item_names(its.take(j)).to_set()).contains(item_name(its[j])),
    ensures
        item_errors(ix, mn, source, smi, seen, its).len() == 0,
    decreases its.len(),
{
    if its.len() > 0 {
        let init = its.drop_last();
        assert forall|j: int| 0 <= j < init.len() implies item_is_exported(ix, smi, #[trigger] init[j])
            && !(seen + item_names(init.take(j)).to_set()).contains(item_name(init[j])) by {
            assert(init[j] == its[j]);
            assert(init.take(j) =~= its.take(j));
        }
        lemma_item_errors_empty(ix, mn, source, smi, seen, init);
        let k = its.len() - 1;
        assert(its.last() == its[k]);
        assert(its.take(k) =~= init);
    }
}

proof fn lemma_import_errors_empty(ix: IndexView, mn: Seq<char>, imps: Seq<ModuleImport>)
    requires
        forall|i: int| 0 <= i < imps.len() ==> ix.modules.contains_key((#[trigger] imps[i]).source.0@)
            && item_errors(ix, mn, imps[i].source.0@, ix.modules[imps[i].source.0@], imported_before(ix, imps.take(i)),
            imps[i].names@).len() == 0,
    ensures
        import_errors(ix, mn, imps).len() == 0,
    decreases imps.len(),
{
    if imps.len() > 0 {
        let init = imps.drop_last();
        assert forall|i: int| 0 <= i < init.len() implies ix.modules.contains_key((#[trigger] init[i]).source.0@)
            && item_errors(ix, mn, init[i].source.0@, ix.modules[init[i].source.0@], imported_before(ix, init.take(i)),
            init[i].names@).len() == 0 by {
            assert(init[i] == imps[i]);
            assert(init.take(i) =~= imps.take(i));
        }
        lemma_import_errors_empty(ix, mn, init);
        let k = imps.len() - 1;
        assert(imps.last() == imps[k]);
        assert(imps.take(k) =~= init);
    }
}

/// A name brought in by the imports comes from one of their items.
proof fn lemma_imported_before_source(ix: IndexView, imps: Seq<ModuleImport>, x: Seq<char>)
    requires
        imported_before(ix, imps).contains(x),
    ensures
        exists|i: int, j: int| 0 <= i < imps.len() && 0 <= j < imps[i].names@.len()
            && #[trigger] item_name(imps[i].names@[j]) == x,
    decreases imps.len(),
{
    let init = imps.drop_last();
    let k = imps.len() - 1;
    if imported_before(ix, init).contains(x) {
        lemma_imported_before_source(ix, init, x);
        let (i, j) = choose|i: int, j: int| 0 <= i < init.len() && 0 <= j < init[i].names@.len()
            && #[trigger] item_name(init[i].names@[j]) == x;
        assert(imps[i] == init[i]);
        assert(item_name(imps[i].names@[j]) == x);
    } else {
        assert(item_names(imps[k].names@).to_set().contains(x));
        let j = choose|j: int| 0 <= j < item_names(imps[k].names@).len() && item_names(imps[k].names@)[j] == x;
        assert(item_name(imps[k].names@[j]) == x);
    }
}

proof fn lemma_link_errors_empty(ms: Seq<ModuleDef>, ix: IndexView, n: nat)
    requires
        n <= ms.len(),
        forall|k: int| 0 <= k < n ==> (#[trigger] export_errors(ix, k, ms[k].name.0@, ms[k].exports@)).len() == 0
            && import_errors(ix, ms[k].name.0@, ms[k].imports@).len() == 0,
    ensures
        link_errors(ms, ix, n).len() == 0,
    decreases n,
{
    if n > 0 {
        lemma_link_errors_empty(ms, ix, (n - 1) as nat);
        let k = n - 1;
        assert(export_errors(ix, k, ms[k].name.0@, ms[k].exports@).len() == 0);
    }
}

/// A program that links finds no problem in the first tier: where there is
/// no import cycle, every export names a definition of its module, every
/// import names a module of the program that exports each imported item
/// as that kind of item, and no module imports a name twice, the module
/// tier reports nothing.
pub proof fn lemma_linking_program_passes_tier_one(ms: Seq<ModuleDef>)
    requires
        import_cycles(index_of(ms).import_graph).len() == 0,
        exports_defined(ms),
        imports_resolve(ms),
        imports_unique(ms),
    ensures
        import_tier_errors(ms, index_of(ms)).len() == 0,
{
    let ix = index_of(ms);
    assert(cycle_errors(ms, import_cycles(ix.import_graph)).len() == 0);
    assert forall|k: int| 0 <= k < ms.len() implies (#[trigger] export_errors(ix, k, ms[k].name.0@, ms[k].exports@)).len() == 0
        && import_errors(ix, ms[k].name.0@, ms[k].imports@).len() == 0 by {
        let m = ms[k];
        assert forall|e: int| 0 <= e < m.exports@.len() implies match #[trigger] m.exports@[e] {
            ExportItem::Type_(n) => 0 <= k < ix.types.len() && ix.types[k].contains_key(n.0@),
            ExportItem::Trait(n) => 0 <= k < ix.traits.len() && ix.traits[k].contains_key(n.0@),
        } by {
            assert(ms[k].exports@[e] == m.exports@[e]);
        }
        lemma_export_errors_empty(ix, k, m.name.0@, m.exports@);
        let imps = m.imports@;
        assert forall|i: int| 0 <= i < imps.len() implies ix.modules.contains_key((#[trigger] imps[i]).source.0@)
            && item_errors(ix, m.name.0@, imps[i].source.0@, ix.modules[imps[i].source.0@], imported_before(ix, imps.take(i)),
            imps[i].names@).len() == 0 by {
            let imp = imps[i];
            assert(ms[k].imports@[i] == imp);
            let smi = ix.modules[imp.source.0@];
            let seen = imported_before(ix, imps.take(i));
            let its = imp.names@;
            assert forall|j: int| 0 <= j < its.len() implies item_is_exported(ix, smi, #[trigger] its[j])
                && !(seen + item_names(its.take(j)).to_set()).contains(item_name(its[j])) by {
                assert(ms[k].imports@[i].names@[j] == its[j]);
                assert(exports_item(ms[smi as int], its[j]));
                assert(smi < ms.len()) by {
                    crate::verify::lemma_built_index_fits(ms);
                }
                let x = item_name(its[j]);
                if seen.contains(x) {
                    lemma_imported_before_source(ix, imps.take(i), x);
                    let (i1, j1) = choose|i1: int, j1: int| 0 <= i1 < imps.take(i).len()
                        && 0 <= j1 < imps.take(i)[i1].names@.len()
                        && #[trigger] item_name(imps.take(i)[i1].names@[j1]) == x;
                    assert(imps.take(i)[i1] == imps[i1]);
                    assert(item_name(ms[k].imports@[i1].names@[j1]) != item_name(ms[k].imports@[i].names@[j]));
                }
                if item_names(its.take(j)).to_set().contains(x) {
                    let j1 = choose|j1: int| 0 <= j1 < item_names(its.take(j)).len() && item_names(its.take(j))[j1] == x;
                    assert(item_name(its[j1]) == x);
                    assert(item_name(ms[k].imports@[i].names@[j1]) != item_name(ms[k].imports@[i].names@[j]));
                }
            }
            lemma_item_errors_empty(ix, m.name.0@, imp.source.0@, smi, seen, its);
        }
        lemma_import_errors_empty(ix, m.name.0@, imps);
    }
    lemma_link_errors_empty(ms, ix, ms.len());
}

/// A const's value suits its declared type: a literal of the type's kind
/// and, for an integer, within the type's range.
pub open spec fn const_fits(c: ConstDef) -> bool {
    match c.typ {
        TypeExpr::Named(t) => literal_fits_type(c.value, t.0@) && match c.value {
            LiteralValue::Int(v) => int_in_range(v as int, t.0@),
            _ => true,
        },
        _ => true,
    }
}

proof fn lemma_literal_errors_clean(ms: Seq<ModuleDef>, n: nat)
    requires
        literal_errors(ms, n).len() == 0,
        n <= ms.len(),
    ensures
        forall|k: int| 0 <= k < n ==> (#[trigger] consts_literal_errors(ms[k].name.0@, ms[k].consts@)).len() == 0,
    decreases n,
{
    if n > 0 {
        lemma_literal_errors_clean(ms, (n - 1) as nat);
    }
}

proof fn lemma_consts_clean(mn: Seq<char>, cs: Seq<ConstDef>)
    requires
        consts_literal_errors(mn, cs).len() == 0,
    ensures
        forall|k: int| 0 <= k < cs.len() ==> const_fits(#[trigger] cs[k]),
    decreases cs.len(),
{
    if cs.len() > 0 {
        let init = cs.drop_last();
        lemma_consts_clean(mn, init);
        assert forall|k: int| 0 <= k < cs.len() implies const_fits(#[trigger] cs[k]) by {
            if k < cs.len() - 1 {
                assert(cs[k] == init[k]);
            } else {
                assert(cs[k] == cs.last());
                assert(const_errors(mn, cs[k]).len() == 0);
            }
        }
    }
}

/// In a program in which verification finds no problem, every const's
/// value suits its declared type.
pub proof fn lemma_clean_program_consts(ms: Seq<ModuleDef>)
    requires
        verify_spec(ms, index_of(ms)).len() == 0,
    ensures
        forall|mi: int, k: int| 0 <= mi < ms.len() && 0 <= k < ms[mi].consts@.len() ==> const_fits(#[trigger] ms[mi].consts@[k]),
{
    let ix = index_of(ms);
    assert(literal_errors(ms, ms.len()).len() == 0) by {
        assert(verify_spec(ms, ix).len() >= literal_errors(ms, ms.len()).len());
    }
    lemma_literal_errors_clean(ms, ms.len());
    assert forall|mi: int, k: int| 0 <= mi < ms.len() && 0 <= k < ms[mi].consts@.len() implies const_fits(#[trigger] ms[mi].consts@[k]) by {
        assert(consts_literal_errors(ms[mi].name.0@, ms[mi].consts@).len() == 0);
        lemma_consts_clean(ms[mi].name.0@, ms[mi].consts@);
    }
}

/// Each name is new: absent from `base` and from the names before it.
pub open spec fn fresh_each(base: Set<Seq<char>>, names: Seq<Seq<char>>) -> bool {
    forall|i: int| 0 <= i < names.len() ==> !(base + names.take(i).to_set()).contains(#[trigger] names[i])
}

proof fn lemma_fresh_each_unique(base: Set<Seq<char>>, names: Seq<Seq<char>>)
    requires
        fresh_each(base, names),
    ensures
        names.no_duplicates(),
        forall|i: int| 0 <= i < names.len() ==> !base.contains(#[trigger] names[i]),
{
    assert forall|i: int, j: int| 0 <= i < names.len() && 0 <= j < names.len() && i != j implies names[i] != names[j] by {
        if i < j {
            assert(names.take(j)[i] == names[i]);
            assert(names.take(j).to_set().contains(names[i]));
        } else {
            assert(names.take(i)[j] == names[j]);
            assert(names.take(i).to_set().contains(names[j]));
        }
    }
}

/// Two sequences of names, each without repeats and the second clear of
/// the first, make one without repeats.
proof fn lemma_unique_concat(a: Seq<Seq<char>>, b: Seq<Seq<char>>)
    requires
        a.no_duplicates(),
        b.no_duplicates(),
        forall|i: int| 0 <= i < b.len() ==> !a.to_set().contains(#[trigger] b[i]),
    ensures
        (a + b).no_duplicates(),
{
    let c = a + b;
    assert forall|i: int, j: int| 0 <= i < c.len() && 0 <= j < c.len() && i != j implies c[i] != c[j] by {
        if i < a.len() && j >= a.len() {
            assert(a.to_set().contains(a[i]));
            assert(c[j] == b[j - a.len()]);
        } else if j < a.len() && i >= a.len() {
            assert(a.to_set().contains(a[j]));
            assert(c[i] == b[i - a.len()]);
        } else if i >= a.len() {
            assert(c[i] == b[i - a.len()] && c[j] == b[j - a.len()]);
        }
    }
}

proof fn lemma_enum_scope_fresh(mn: Seq<char>, top: Set<Seq<char>>, es: Seq<EnumDef>)
    requires
        enum_scope_errors(mn, top, es).len() == 0,
    ensures
        fresh_each(Set::empty(), enum_def_names(es)),
    decreases es.len(),
{
    if es.len() > 0 {
        let init = es.drop_last();
        lemma_enum_scope_fresh(mn, top, init);
        let names = enum_def_names(es);
        assert(enum_def_names(init) =~= names.take(es.len() - 1));
        assert forall|i: int| 0 <= i < names.len() implies !(Set::<Seq<char>>::empty() + names.take(i).to_set()).contains(#[trigger] names[i]) by {
            if i < names.len() - 1 {
                assert(enum_def_names(init)[i] == names[i]);
                assert(enum_def_names(init).take(i) =~= names.take(i));
            }
        }
    }
}

proof fn lemma_struct_scope_fresh(mn: Seq<char>, base: Set<Seq<char>>, top: Set<Seq<char>>, ss: Seq<StructDef>)
    requires
        struct_scope_errors(mn, base, top, ss).len() == 0,
    ensures
        fresh_each(base, struct_def_names(ss)),
    decreases ss.len(),
{
    if ss.len() > 0 {
        let init = ss.drop_last();
        lemma_struct_scope_fresh(mn, base, top, init);
        let names = struct_def_names(ss);
        assert(struct_def_names(init) =~= names.take(ss.len() - 1));
        assert forall|i: int| 0 <= i < names.len() implies !(base + names.take(i).to_set()).contains(#[trigger] names[i]) by {
            if i < names.len() - 1 {
                assert(struct_def_names(init)[i] == names[i]);
                assert(struct_def_names(init).take(i) =~= names.take(i));
            }
        }
    }
}

proof fn lemma_newtype_scope_fresh(mn: Seq<char>, base: Set<Seq<char>>, ns: Seq<NewtypeDef>)
    requires
        newtype_scope_errors(mn, base, ns).len() == 0,
    ensures
        fresh_each(base, newtype_def_names(ns)),
    decreases ns.len(),
{
    if ns.len() > 0 {
        let init = ns.drop_last();
        lemma_newtype_scope_fresh(mn, base, init);
        let names = newtype_def_names(ns);
        assert(newtype_def_names(init) =~= names.take(ns.len() - 1));
        assert forall|i: int| 0 <= i < names.len() implies !(base + names.take(i).to_set()).contains(#[trigger] names[i]) by {
            if i < names.len() - 1 {
                assert(newtype_def_names(init)[i] == names[i]);
                assert(newtype_def_names(init).take(i) =~= names.take(i));
            }
        }
    }
}

proof fn lemma_const_scope_fresh(mn: Seq<char>, base: Set<Seq<char>>, cs: Seq<ConstDef>)
    requires
        const_scope_errors(mn, base, cs).len() == 0,
    ensures
        fresh_each(base, const_def_names(cs)),
    decreases cs.len(),
{
    if cs.len() > 0 {
        let init = cs.drop_last();
        lemma_const_scope_fresh(mn, base, init);
        let names = const_def_names(cs);
        assert(const_def_names(init) =~= names.take(cs.len() - 1));
        assert forall|i: int| 0 <= i < names.len() implies !(base + names.take(i).to_set()).contains(#[trigger] names[i]) by {
            if i < names.len() - 1 {
                assert(const_def_names(init)[i] == names[i]);
                assert(const_def_names(init).take(i) =~= names.take(i));
            }
        }
    }
}

proof fn lemma_trait_scope_fresh(mn: Seq<char>, ts: Seq<TraitDeclDef>)
    requires
        trait_scope_errors(mn, ts).len() == 0,
    ensures
        fresh_each(Set::empty(), trait_decl_names(ts)),
    decreases ts.len(),
{
    if ts.len() > 0 {
        let init = ts.drop_last();
        lemma_trait_scope_fresh(mn, init);
        let names = trait_decl_names(ts);
        assert(trait_decl_names(init) =~= names.take(ts.len() - 1));
        assert forall|i: int| 0 <= i < names.len() implies !(Set::<Seq<char>>::empty() + names.take(i).to_set()).contains(#[trigger] names[i]) by {
            if i < names.len() - 1 {
                assert(trait_decl_names(init)[i] == names[i]);
                assert(trait_decl_names(init).take(i) =~= names.take(i));
            }
        }
    }
}

pub(crate) proof fn lemma_generics_fresh(mn: Seq<char>, owner: Seq<char>, ps: Seq<GenericParamDef>)
    requires
        generic_uniqueness_errors(mn, owner, ps).len() == 0,
    ensures
        param_names(ps).no_duplicates(),
    decreases ps.len(),
{
    if ps.len() > 0 {
        let init = ps.drop_last();
        lemma_generics_fresh(mn, owner, init);
        let names = param_names(ps);
        assert(param_names(init) =~= names.take(ps.len() - 1));
        assert forall|i: int| 0 <= i < names.len() implies !(Set::<Seq<char>>::empty() + names.take(i).to_set()).contains(#[trigger] names[i]) by {
            if i < names.len() - 1 {
                assert(param_names(init)[i] == names[i]);
                assert(param_names(init).take(i) =~= names.take(i));
                lemma_fresh_each_unique(Set::empty(), param_names(init));
                assert forall|a: int| 0 <= a < i implies param_names(init)[a] != names[i] by {}
            }
        }
        lemma_fresh_each_unique(Set::empty(), names);
    }
}

proof fn lemma_enum_generics_clean(mn: Seq<char>, es: Seq<EnumDef>)
    requires
        enum_generic_errors(mn, es).len() == 0,
    ensures
        forall|e: int| 0 <= e < es.len() ==> param_names((#[trigger] es[e]).generic_params@).no_duplicates(),
    decreases es.len(),
{
    if es.len() > 0 {
        let init = es.drop_last();
        lemma_enum_generics_clean(mn, init);
        lemma_generics_fresh(mn, es.last().name.0@, es.last().generic_params@);
        assert forall|e: int| 0 <= e < es.len() implies param_names((#[trigger] es[e]).generic_params@).no_duplicates() by {
            if e < es.len() - 1 {
                assert(es[e] == init[e]);
            }
        }
    }
}

proof fn lemma_struct_generics_clean(mn: Seq<char>, ss: Seq<StructDef>)
    requires
        struct_generic_errors(mn, ss).len() == 0,
    ensures
        forall|e: int| 0 <= e < ss.len() ==> param_names((#[trigger] ss[e]).generic_params@).no_duplicates(),
    decreases ss.len(),
{
    if ss.len() > 0 {
        let init = ss.drop_last();
        lemma_struct_generics_clean(mn, init);
        lemma_generics_fresh(mn, ss.last().name.0@, ss.last().generic_params@);
        assert forall|e: int| 0 <= e < ss.len() implies param_names((#[trigger] ss[e]).generic_params@).no_duplicates() by {
            if e < ss.len() - 1 {
                assert(ss[e] == init[e]);
            }
        }
    }
}

proof fn lemma_newtype_generics_clean(mn: Seq<char>, ns: Seq<NewtypeDef>)
    requires
        newtype_generic_errors(mn, ns).len() == 0,
    ensures
        forall|e: int| 0 <= e < ns.len() ==> param_names((#[trigger] ns[e]).generic_params@).no_duplicates(),
    decreases ns.len(),
{
    if ns.len() > 0 {
        let init = ns.drop_last();
        lemma_newtype_generics_clean(mn, init);
        lemma_generics_fresh(mn, ns.last().name.0@, ns.last().generic_params@);
        assert forall|e: int| 0 <= e < ns.len() implies param_names((#[trigger] ns[e]).generic_params@).no_duplicates() by {
            if e < ns.len() - 1 {
                assert(ns[e] == init[e]);
            }
        }
    }
}

pub(crate) proof fn lemma_scope_errors_clean(ms: Seq<ModuleDef>, n: nat)
    requires
        scope_errors(ms, n).len() == 0,
        n <= ms.len(),
    ensures
        forall|k: int| 0 <= k < n ==> (#[trigger] module_scope_errors(ms[k])).len() == 0,
    decreases n,
{
    if n > 0 {
        lemma_scope_errors_clean(ms, (n - 1) as nat);
    }
}

/// The names that share one namespace in a module: its enums, structs,
/// newtypes and consts.
pub open spec fn type_namespace(m: ModuleDef) -> Seq<Seq<char>> {
    enum_def_names(m.enums@) + struct_def_names(m.structs@) + newtype_def_names(m.newtypes@) + const_def_names(m.consts@)
}

/// The names are unique in one module, as verification requires.
pub(crate) proof fn lemma_module_names_unique(m: ModuleDef)
    requires
        module_scope_errors(m).len() == 0,
    ensures
        type_namespace(m).no_duplicates(),
        trait_decl_names(m.trait_decls@).no_duplicates(),
        forall|e: int| 0 <= e < m.enums@.len() ==> param_names((#[trigger] m.enums@[e]).generic_params@).no_duplicates(),
        forall|e: int| 0 <= e < m.structs@.len() ==> param_names((#[trigger] m.structs@[e]).generic_params@).no_duplicates(),
        forall|e: int| 0 <= e < m.newtypes@.len() ==> param_names((#[trigger] m.newtypes@[e]).generic_params@).no_duplicates(),
{
    let mn = m.name.0@;
    let a = enum_def_names(m.enums@);
    let b = struct_def_names(m.structs@);
    let c = newtype_def_names(m.newtypes@);
    let d = const_def_names(m.consts@);
    let en = a.to_set();
    let sn = en + b.to_set();
    let nn = sn + c.to_set();
    lemma_enum_scope_fresh(mn, crate::verify::top_level_names(m), m.enums@);
    lemma_struct_scope_fresh(mn, en, crate::verify::top_level_names(m), m.structs@);
    lemma_newtype_scope_fresh(mn, sn, m.newtypes@);
    lemma_const_scope_fresh(mn, nn, m.consts@);
    lemma_trait_scope_fresh(mn, m.trait_decls@);
    lemma_fresh_each_unique(Set::empty(), a);
    lemma_fresh_each_unique(en, b);
    lemma_fresh_each_unique(sn, c);
    lemma_fresh_each_unique(nn, d);
    lemma_fresh_each_unique(Set::empty(), trait_decl_names(m.trait_decls@));
    lemma_unique_concat(a, b);
    assert((a + b).to_set() =~= sn) by {
        vstd::seq_lib::seq_to_set_distributes_over_add(a, b);
    }
    lemma_unique_concat(a + b, c);
    assert((a + b + c).to_set() =~= nn) by {
        vstd::seq_lib::seq_to_set_distributes_over_add(a + b, c);
    }
    lemma_unique_concat(a + b + c, d);
    lemma_enum_generics_clean(mn, m.enums@);
    lemma_struct_generics_clean(mn, m.structs@);
    lemma_newtype_generics_clean(mn, m.newtypes@);
}

/// In a program in which verification finds no problem, names are unique
/// in their scope: within each module no two of its enums, structs,
/// newtypes and consts share a name, no two traits do, and no definition
/// declares one generic parameter twice.
pub proof fn lemma_clean_program_names_unique(ms: Seq<ModuleDef>)
    requires
        verify_spec(ms, index_of(ms)).len() == 0,
    ensures
        forall|mi: int| 0 <= mi < ms.len() ==> (#[trigger] type_namespace(ms[mi])).no_duplicates()
            && trait_decl_names(ms[mi].trait_decls@).no_duplicates(),
        forall|mi: int, e: int| 0 <= mi < ms.len() && 0 <= e < ms[mi].enums@.len()
            ==> param_names((#[trigger] ms[mi].enums@[e]).generic_params@).no_duplicates(),
        forall|mi: int, e: int| 0 <= mi < ms.len() && 0 <= e < ms[mi].structs@.len()
            ==> param_names((#[trigger] ms[mi].structs@[e]).generic_params@).no_duplicates(),
        forall|mi: int, e: int| 0 <= mi < ms.len() && 0 <= e < ms[mi].newtypes@.len()
            ==> param_names((#[trigger] ms[mi].newtypes@[e]).generic_params@).no_duplicates(),
{
    let ix = index_of(ms);
    assert(scope_errors(ms, ms.len()).len() == 0) by {
        assert(verify_spec(ms, ix).len() >= scope_errors(ms, ms.len()).len());
    }
    lemma_scope_errors_clean(ms, ms.len());
    assert forall|mi: int| 0 <= mi < ms.len() implies (#[trigger] type_namespace(ms[mi])).no_duplicates()
        && trait_decl_names(ms[mi].trait_decls@).no_duplicates() by {
        assert(module_scope_errors(ms[mi]).len() == 0);
        lemma_module_names_unique(ms[mi]);
    }
    assert forall|mi: int, e: int| 0 <= mi < ms.len() && 0 <= e < ms[mi].enums@.len()
        implies param_names((#[trigger] ms[mi].enums@[e]).generic_params@).no_duplicates() by {
        assert(module_scope_errors(ms[mi]).len() == 0);
        lemma_module_names_unique(ms[mi]);
    }
    assert forall|mi: int, e: int| 0 <= mi < ms.len() && 0 <= e < ms[mi].structs@.len()
        implies param_names((#[trigger] ms[mi].structs@[e]).generic_params@).no_duplicates() by {
        assert(module_scope_errors(ms[mi]).len() == 0);
        lemma_module_names_unique(ms[mi]);
    }
    assert forall|mi: int, e: int| 0 <= mi < ms.len() && 0 <= e < ms[mi].newtypes@.len()
        implies param_names((#[trigger] ms[mi].newtypes@[e]).generic_params@).no_duplicates() by {
        assert(module_scope_errors(ms[mi]).len() == 0);
        lemma_module_names_unique(ms[mi]);
    }
}

proof fn lemma_nested_enum_regs_marked(parent: Seq<char>, cs: Seq<EnumChild>)
    ensures
        forall|i: int| 0 <= i < nested_enum_regs(parent, cs).len() ==> (#[trigger] nested_enum_regs(parent, cs)[i]).1.1
            == nested_position(),
    decreases cs,
{
    if cs.len() > 0 {
        let rest = nested_enum_regs(parent, cs.drop_last());
        lemma_nested_enum_regs_marked(parent, cs.drop_last());
        match cs.last() {
            EnumChild::NestedEnum(e) => {
                let sp = crate::index::scoped_name(parent, e.name.0@);
                lemma_nested_enum_regs_marked(sp, e.children@);
                let mid = rest + seq![(e.name.0@, (TypeKind::Enum, nested_position())), (sp, (TypeKind::Enum, nested_position()))];
                let sub = nested_enum_regs(sp, e.children@);
                assert forall|i: int| 0 <= i < nested_enum_regs(parent, cs).len() implies (#[trigger] nested_enum_regs(parent, cs)[i]).1.1
                    == nested_position() by {
                    if i < rest.len() {
                        assert(nested_enum_regs(parent, cs)[i] == rest[i]);
                    } else if i < mid.len() {
                        assert(nested_enum_regs(parent, cs)[i] == mid[i]);
                    } else {
                        assert(nested_enum_regs(parent, cs)[i] == sub[i - mid.len()]);
                    }
                }
            },
            EnumChild::NestedStruct(s) => {
                let sp = crate::index::scoped_name(parent, s.name.0@);
                lemma_nested_struct_regs_marked(sp, s.children@);
                let mid = rest + seq![(s.name.0@, (TypeKind::Struct, nested_position())), (sp, (TypeKind::Struct, nested_position()))];
                let sub = nested_struct_regs(sp, s.children@);
                assert forall|i: int| 0 <= i < nested_enum_regs(parent, cs).len() implies (#[trigger] nested_enum_regs(parent, cs)[i]).1.1
                    == nested_position() by {
                    if i < rest.len() {
                        assert(nested_enum_regs(parent, cs)[i] == rest[i]);
                    } else if i < mid.len() {
                        assert(nested_enum_regs(parent, cs)[i] == mid[i]);
                    } else {
                        assert(nested_enum_regs(parent, cs)[i] == sub[i - mid.len()]);
                    }
                }
            },
            _ => {
                assert(nested_enum_regs(parent, cs) == rest);
            },
        }
    }
}

proof fn lemma_nested_struct_regs_marked(parent: Seq<char>, cs: Seq<StructChild>)
    ensures
        forall|i: int| 0 <= i < nested_struct_regs(parent, cs).len() ==> (#[trigger] nested_struct_regs(parent, cs)[i]).1.1
            == nested_position(),
    decreases cs,
{
    if cs.len() > 0 {
        let rest = nested_struct_regs(parent, cs.drop_last());
        lemma_nested_struct_regs_marked(parent, cs.drop_last());
        match cs.last() {
            StructChild::NestedEnum(e) => {
                let sp = crate::index::scoped_name(parent, e.name.0@);
                lemma_nested_enum_regs_marked(sp, e.children@);
                let mid = rest + seq![(e.name.0@, (TypeKind::Enum, nested_position())), (sp, (TypeKind::Enum, nested_position()))];
                let sub = nested_enum_regs(sp, e.children@);
                assert forall|i: int| 0 <= i < nested_struct_regs(parent, cs).len() implies (#[trigger] nested_struct_regs(parent, cs)[i]).1.1
                    == nested_position() by {
                    if i < rest.len() {
                        assert(nested_struct_regs(parent, cs)[i] == rest[i]);
                    } else if i < mid.len() {
                        assert(nested_struct_regs(parent, cs)[i] == mid[i]);
                    } else {
                        assert(nested_struct_regs(parent, cs)[i] == sub[i - mid.len()]);
                    }
                }
            },
            StructChild::NestedStruct(s) => {
                let sp = crate::index::scoped_name(parent, s.name.0@);
                lemma_nested_struct_regs_marked(sp, s.children@);
                let mid = rest + seq![(s.name.0@, (TypeKind::Struct, nested_position())), (sp, (TypeKind::Struct, nested_position()))];
                let sub = nested_struct_regs(sp, s.children@);
                assert forall|i: int| 0 <= i < nested_struct_regs(parent, cs).len() implies (#[trigger] nested_struct_regs(parent, cs)[i]).1.1
                    == nested_position() by {
                    if i < rest.len() {
                        assert(nested_struct_regs(parent, cs)[i] == rest[i]);
                    } else if i < mid.len() {
                        assert(nested_struct_regs(parent, cs)[i] == mid[i]);
                    } else {
                        assert(nested_struct_regs(parent, cs)[i] == sub[i - mid.len()]);
                    }
                }
            },
            _ => {
                assert(nested_struct_regs(parent, cs) == rest);
            },
        }
    }
}

/// Where a type registration points: at the definition of that name, at
/// that position in the module's list of that kind; or at no list, for a
/// nested definition.
pub open spec fn points_at_definition(m: ModuleDef, name: Seq<char>, v: (TypeKind, usize)) -> bool {
    v.1 == nested_position() || match v.0 {
        TypeKind::Enum => v.1 < m.enums@.len() && m.enums@[v.1 as int].name.0@ == name,
        TypeKind::Struct => v.1 < m.structs@.len() && m.structs@[v.1 as int].name.0@ == name,
        TypeKind::Newtype => v.1 < m.newtypes@.len() && m.newtypes@[v.1 as int].name.0@ == name,
        TypeKind::Const => v.1 < m.consts@.len() && m.consts@[v.1 as int].name.0@ == name,
    }
}

proof fn lemma_enum_regs_point(m: ModuleDef, es: Seq<EnumDef>)
    requires
        es.len() <= m.enums@.len(),
        forall|k: int| 0 <= k < es.len() ==> #[trigger] es[k] == m.enums@[k],
        m.enums@.len() <= usize::MAX,
    ensures
        forall|i: int| 0 <= i < enum_regs(es).len() ==> points_at_definition(m, (#[trigger] enum_regs(es)[i]).0, enum_regs(es)[i].1),
    decreases es.len(),
{
    if es.len() > 0 {
        let init = es.drop_last();
        lemma_enum_regs_point(m, init);
        lemma_nested_enum_regs_marked(es.last().name.0@, es.last().children@);
        let head = enum_regs(init) + seq![(es.last().name.0@, (TypeKind::Enum, (es.len() - 1) as usize))];
        let tail = nested_enum_regs(es.last().name.0@, es.last().children@);
        assert forall|i: int| 0 <= i < enum_regs(es).len() implies points_at_definition(m, (#[trigger] enum_regs(es)[i]).0, enum_regs(es)[i].1) by {
            if i < enum_regs(init).len() {
                assert(enum_regs(es)[i] == enum_regs(init)[i]);
            } else if i == enum_regs(init).len() {
                assert(enum_regs(es)[i] == head[i]);
                assert(es[es.len() - 1] == m.enums@[es.len() - 1]);
            } else {
                assert(enum_regs(es)[i] == tail[i - head.len()]);
            }
        }
    }
}

proof fn lemma_struct_regs_point(m: ModuleDef, ss: Seq<StructDef>)
    requires
        ss.len() <= m.structs@.len(),
        forall|k: int| 0 <= k < ss.len() ==> #[trigger] ss[k] == m.structs@[k],
        m.structs@.len() <= usize::MAX,
    ensures
        forall|i: int| 0 <= i < struct_regs(ss).len() ==> points_at_definition(m, (#[trigger] struct_regs(ss)[i]).0, struct_regs(ss)[i].1),
    decreases ss.len(),
{
    if ss.len() > 0 {
        let init = ss.drop_last();
        lemma_struct_regs_point(m, init);
        lemma_nested_struct_regs_marked(ss.last().name.0@, ss.last().children@);
        let head = struct_regs(init) + seq![(ss.last().name.0@, (TypeKind::Struct, (ss.len() - 1) as usize))];
        let tail = nested_struct_regs(ss.last().name.0@, ss.last().children@);
        assert forall|i: int| 0 <= i < struct_regs(ss).len() implies points_at_definition(m, (#[trigger] struct_regs(ss)[i]).0, struct_regs(ss)[i].1) by {
            if i < struct_regs(init).len() {
                assert(struct_regs(ss)[i] == struct_regs(init)[i]);
            } else if i == struct_regs(init).len() {
                assert(struct_regs(ss)[i] == head[i]);
                assert(ss[ss.len() - 1] == m.structs@[ss.len() - 1]);
            } else {
                assert(struct_regs(ss)[i] == tail[i - head.len()]);
            }
        }
    }
}

/// Each registration the index makes for a module points at a definition
/// of that name, or is the marker of a nested definition.
proof fn lemma_type_regs_point(m: ModuleDef)
    ensures
        forall|i: int| 0 <= i < type_regs(m).len() ==> points_at_definition(m, (#[trigger] type_regs(m)[i]).0, type_regs(m)[i].1),
{
    assert(m.enums.len() == m.enums@.len());
    assert(m.structs.len() == m.structs@.len());
    assert(m.newtypes.len() == m.newtypes@.len());
    assert(m.consts.len() == m.consts@.len());
    lemma_enum_regs_point(m, m.enums@);
    lemma_struct_regs_point(m, m.structs@);
    let a = enum_regs(m.enums@);
    let b = struct_regs(m.structs@);
    let c = newtype_regs(m.newtypes@);
    let d = const_regs(m.consts@);
    assert forall|i: int| 0 <= i < type_regs(m).len() implies points_at_definition(m, (#[trigger] type_regs(m)[i]).0, type_regs(m)[i].1) by {
        if i < a.len() {
            assert(type_regs(m)[i] == a[i]);
        } else if i < a.len() + b.len() {
            assert(type_regs(m)[i] == b[i - a.len()]);
        } else if i < a.len() + b.len() + c.len() {
            assert(type_regs(m)[i] == c[i - a.len() - b.len()]);
        } else {
            assert(type_regs(m)[i] == d[i - a.len() - b.len() - c.len()]);
        }
    }
}

/// The index points each type name a module defines at a definition of
/// that name (or marks it nested), and each trait name at a declaration of
/// that name.
pub proof fn lemma_index_points_at_definitions(ms: Seq<ModuleDef>, mi: int, name: Seq<char>)
    requires
        0 <= mi < ms.len(),
    ensures
        index_of(ms).types[mi].contains_key(name) ==> points_at_definition(ms[mi], name, index_of(ms).types[mi][name]),
        index_of(ms).traits[mi].contains_key(name) ==> index_of(ms).traits[mi][name] < ms[mi].trait_decls@.len()
            && ms[mi].trait_decls@[index_of(ms).traits[mi][name] as int].name.0@ == name,
{
    let m = ms[mi];
    if index_of(ms).types[mi].contains_key(name) {
        let b = type_regs(m);
        lemma_bound_name_has_live(b, name);
        let i = choose|i: int| 0 <= i < b.len() && b[i].0 == name && crate::table::live(b, i);
        lemma_map_of_last(b, i);
        lemma_type_regs_point(m);
        assert(points_at_definition(m, b[i].0, b[i].1));
    }
    if index_of(ms).traits[mi].contains_key(name) {
        let b = trait_regs(m);
        lemma_bound_name_has_live(b, name);
        let i = choose|i: int| 0 <= i < b.len() && b[i].0 == name && crate::table::live(b, i);
        lemma_map_of_last(b, i);
        assert(m.trait_decls.len() == m.trait_decls@.len());
    }
}

/// Each type the emitted resolution table lists stands where its entry
/// says: in a module of the program, at a definition of that name (or
/// marked nested).
pub proof fn lemma_table_types_point_at_definitions(ms: Seq<ModuleDef>, r: ResolutionTable, a: int)
    requires
        resolution_of(ms, index_of(ms), r),
        0 <= a < r.types@.len(),
    ensures
        exists|mi: int, v: (TypeKind, usize)| 0 <= mi < ms.len() && r.types@[a].location == type_location_of(mi, v)
            && points_at_definition(ms[mi], r.types@[a].name@, v),
{
    let ix = index_of(ms);
    let t = type_entries_view(r.types@)[a];
    assert(type_entries_view(r.types@).to_set().contains(t));
    let mi = choose|mi: int| #[trigger] type_entry_at(ix, t, mi);
    lemma_index_points_at_definitions(ms, mi, t.0);
    let v = ix.types[mi][t.0];
    assert(0 <= mi < ms.len() && r.types@[a].location == type_location_of(mi, v) && points_at_definition(ms[mi], r.types@[a].name@, v));
}

/// Each trait the emitted resolution table lists stands where its entry
/// says: in a module of the program, at a declaration of that name.
pub proof fn lemma_table_traits_point_at_declarations(ms: Seq<ModuleDef>, r: ResolutionTable, a: int)
    requires
        resolution_of(ms, index_of(ms), r),
        0 <= a < r.traits@.len(),
    ensures
        exists|mi: int, d: usize| 0 <= mi < ms.len() && r.traits@[a].location == trait_location_of(mi, d)
            && d < ms[mi].trait_decls@.len() && ms[mi].trait_decls@[d as int].name.0@ == r.traits@[a].name@,
{
    let ix = index_of(ms);
    let t = trait_entries_view(r.traits@)[a];
    assert(trait_entries_view(r.traits@).to_set().contains(t));
    let mi = choose|mi: int| #[trigger] trait_entry_at(ix, t, mi);
    lemma_index_points_at_definitions(ms, mi, t.0);
    let d = ix.traits[mi][t.0];
    assert(0 <= mi < ms.len() && r.traits@[a].location == trait_location_of(mi, d) && d < ms[mi].trait_decls@.len()
        && ms[mi].trait_decls@[d as int].name.0@ == r.traits@[a].name@);
}

/// Every tier runs whatever the earlier ones found: the problems reported
/// are those of module linking, then of the type graph, of trait
/// structure, of scopes and of literals, each tier's in full.
#[verifier::spinoff_prover]
#[verifier::rlimit(40)]
pub proof fn lemma_every_tier_reported(ms: Seq<ModuleDef>, ix: IndexView)
    ensures
        ({
            let all = verify_spec(ms, ix);
            let t1 = import_tier_errors(ms, ix);
            let t2 = type_graph_errors(ms, ix, ms.len());
            let t3 = structure_errors(ms, ix, ms.len());
            let t4 = scope_errors(ms, ms.len());
            let t5 = literal_errors(ms, ms.len());
            &&& all.len() == t1.len() + t2.len() + t3.len() + t4.len() + t5.len()
            &&& all.subrange(0, t1.len() as int) == t1
            &&& all.subrange(t1.len() as int, (t1.len() + t2.len()) as int) == t2
            &&& all.subrange((t1.len() + t2.len()) as int, (t1.len() + t2.len() + t3.len()) as int) == t3
            &&& all.subrange((t1.len() + t2.len() + t3.len()) as int, (t1.len() + t2.len() + t3.len() + t4.len()) as int) == t4
            &&& all.subrange((t1.len() + t2.len() + t3.len() + t4.len()) as int, all.len() as int) == t5
        }),
{
    let all = verify_spec(ms, ix);
    let t1 = import_tier_errors(ms, ix);
    let t2 = type_graph_errors(ms, ix, ms.len());
    let t3 = structure_errors(ms, ix, ms.len());
    let t4 = scope_errors(ms, ms.len());
    let t5 = literal_errors(ms, ms.len());
    assert(all == t1 + t2 + t3 + t4 + t5);
    assert(all.subrange(0, t1.len() as int) =~= t1);
    assert(all.subrange(t1.len() as int, (t1.len() + t2.len()) as int) =~= t2);
    assert(all.subrange((t1.len() + t2.len()) as int, (t1.len() + t2.len() + t3.len()) as int) =~= t3);
    assert(all.subrange((t1.len() + t2.len() + t3.len()) as int, (t1.len() + t2.len() + t3.len() + t4.len()) as int) =~= t4);
    assert(all.subrange((t1.len() + t2.len() + t3.len() + t4.len()) as int, all.len() as int) =~= t5);
}

/// The first module from the `k`-th on whose map binds `name` does bind it.
proof fn lemma_first_module_binding<V>(maps: Seq<Map<Seq<char>, V>>, name: Seq<char>, k: int)
    ensures
        first_module_binding(maps, name, k) matches Some(j) ==> k <= j < maps.len() && maps[j].contains_key(name),
    decreases maps.len() - k,
{
    if 0 <= k < maps.len() && !maps[k].contains_key(name) {
        lemma_first_module_binding(maps, name, k + 1);
    }
}

/// The location stands at a declaration of the trait `name`.
pub open spec fn trait_location_points(ms: Seq<ModuleDef>, tl: TraitLocation, name: Seq<char>) -> bool {
    exists|k: int, d: usize| 0 <= k < ms.len() && #[trigger] trait_location_of(k, d) == tl && d < ms[k].trait_decls@.len()
        && ms[k].trait_decls@[d as int].name.0@ == name
}

/// The location stands at a definition of the type `t` is named by (or is
/// the mark of a nested definition of that name).
pub open spec fn type_location_points(ms: Seq<ModuleDef>, tl: TypeLocation, t: TypeExpr) -> bool {
    match impl_type_name(t) {
        Some(name) => exists|k: int, v: (TypeKind, usize)| 0 <= k < ms.len() && #[trigger] type_location_of(k, v) == tl
            && points_at_definition(ms[k], name, v),
        None => false,
    }
}

/// An implementation entry stands for an implementation of the program,
/// and points at a declaration of the trait it implements and at the
/// definition of the type it is for.
pub open spec fn impl_entry_points(ms: Seq<ModuleDef>, e: ImplEntry) -> bool {
    exists|mi: int, ii: int| 0 <= mi < ms.len() && 0 <= ii < ms[mi].trait_impls@.len() && e.impl_module == mi as u32
        && e.impl_index == ii as u32 && trait_location_points(ms, e.trait_name, (#[trigger] ms[mi].trait_impls@[ii]).trait_name.0@)
        && type_location_points(ms, e.typ, ms[mi].trait_impls@[ii].typ)
}

/// The module an import brings a name from is one whose map binds it.
proof fn lemma_import_binding<V>(
    mods: Map<Seq<char>, usize>,
    maps: Seq<Map<Seq<char>, V>>,
    imps: Seq<ModuleImport>,
    name: Seq<char>,
    want_trait: bool,
)
    ensures
        import_binding(mods, maps, imps, name, want_trait) matches Some(k) ==> 0 <= k < maps.len() && maps[k].contains_key(name),
    decreases imps.len(),
{
    if imps.len() > 0 {
        lemma_import_binding(mods, maps, imps.drop_first(), name, want_trait);
    }
}

proof fn lemma_trait_location_points(ms: Seq<ModuleDef>, imps: Seq<ModuleImport>, mi: int, name: Seq<char>)
    ensures
        trait_location_spec(index_of(ms), imps, mi, name) matches Some(tl) ==> trait_location_points(ms, tl, name),
{
    let ix = index_of(ms);
    lemma_import_binding(ix.modules, ix.traits, imps, name, true);
    if 0 <= mi < ix.traits.len() && ix.traits[mi].contains_key(name) {
        lemma_index_points_at_definitions(ms, mi, name);
        let d = ix.traits[mi][name];
        assert(ms[mi].trait_decls@[d as int].name.0@ == name);
        assert(trait_location_of(mi, d) == trait_location_of(mi, d));
    } else if let Some(k) = import_binding(ix.modules, ix.traits, imps, name, true) {
        lemma_index_points_at_definitions(ms, k, name);
        let d = ix.traits[k][name];
        assert(ms[k].trait_decls@[d as int].name.0@ == name);
        assert(trait_location_of(k, d) == trait_location_of(k, d));
    } else {
        lemma_first_module_binding(ix.traits, name, 0);
        if let Some(k) = first_module_binding(ix.traits, name, 0) {
            lemma_index_points_at_definitions(ms, k, name);
            let d = ix.traits[k][name];
            assert(ms[k].trait_decls@[d as int].name.0@ == name);
            assert(trait_location_of(k, d) == trait_location_of(k, d));
        }
    }
}

proof fn lemma_type_location_points(ms: Seq<ModuleDef>, imps: Seq<ModuleImport>, mi: int, t: TypeExpr)
    ensures
        type_location_spec(index_of(ms), imps, mi, t) matches Some(tl) ==> type_location_points(ms, tl, t),
{
    let ix = index_of(ms);
    if let Some(name) = impl_type_name(t) {
        lemma_import_binding(ix.modules, ix.types, imps, name, false);
        if 0 <= mi < ix.types.len() && ix.types[mi].contains_key(name) {
            lemma_index_points_at_definitions(ms, mi, name);
            let v = ix.types[mi][name];
            assert(type_location_of(mi, v) == type_location_of(mi, v));
        } else if let Some(k) = import_binding(ix.modules, ix.types, imps, name, false) {
            lemma_index_points_at_definitions(ms, k, name);
            let v = ix.types[k][name];
            assert(type_location_of(k, v) == type_location_of(k, v));
        } else {
            lemma_first_module_binding(ix.types, name, 0);
            if let Some(k) = first_module_binding(ix.types, name, 0) {
                lemma_index_points_at_definitions(ms, k, name);
                let v = ix.types[k][name];
                assert(type_location_of(k, v) == type_location_of(k, v));
            }
        }
    }
}

proof fn lemma_module_impl_entries_point(ms: Seq<ModuleDef>, mi: int, n: int)
    requires
        0 <= mi < ms.len(),
        0 <= n <= ms[mi].trait_impls@.len(),
    ensures
        forall|a: int| 0 <= a < module_impl_entries(index_of(ms), mi, ms[mi].imports@, ms[mi].trait_impls@.take(n)).len() ==> impl_entry_points(
            ms,
            #[trigger] module_impl_entries(index_of(ms), mi, ms[mi].imports@, ms[mi].trait_impls@.take(n))[a],
        ),
    decreases n,
{
    let ix = index_of(ms);
    let tis = ms[mi].trait_impls@.take(n);
    if n > 0 {
        lemma_module_impl_entries_point(ms, mi, n - 1);
        assert(tis.drop_last() =~= ms[mi].trait_impls@.take(n - 1));
        let ti = tis.last();
        assert(ti == ms[mi].trait_impls@[n - 1]);
        let imps = ms[mi].imports@;
        let rest = module_impl_entries(ix, mi, imps, ms[mi].trait_impls@.take(n - 1));
        lemma_trait_location_points(ms, imps, mi, ti.trait_name.0@);
        lemma_type_location_points(ms, imps, mi, ti.typ);
        match (trait_location_spec(ix, imps, mi, ti.trait_name.0@), type_location_spec(ix, imps, mi, ti.typ)) {
            (Some(tl), Some(ty)) => {
                let e = ImplEntry { trait_name: tl, typ: ty, impl_module: mi as u32, impl_index: (tis.len() - 1) as u32 };
                assert(impl_entry_points(ms, e)) by {
                    assert(ms[mi].trait_impls@[n - 1] == ti);
                }
                assert forall|a: int| 0 <= a < module_impl_entries(ix, mi, imps, tis).len() implies impl_entry_points(
                    ms,
                    #[trigger] module_impl_entries(ix, mi, imps, tis)[a],
                ) by {
                    if a < rest.len() {
                        assert(module_impl_entries(ix, mi, imps, tis)[a] == rest[a]);
                    } else {
                        assert(module_impl_entries(ix, mi, imps, tis)[a] == e);
                    }
                }
            },
            _ => {
                assert(module_impl_entries(ix, mi, imps, tis) == rest);
            },
        }
    }
}

proof fn lemma_impl_entries_point(ms: Seq<ModuleDef>, n: nat)
    requires
        n <= ms.len(),
    ensures
        forall|a: int| 0 <= a < impl_entries_spec(ms, index_of(ms), n).len() ==> impl_entry_points(
            ms,
            #[trigger] impl_entries_spec(ms, index_of(ms), n)[a],
        ),
    decreases n,
{
    if n > 0 {
        let ix = index_of(ms);
        lemma_impl_entries_point(ms, (n - 1) as nat);
        let rest = impl_entries_spec(ms, ix, (n - 1) as nat);
        let mine = module_impl_entries(ix, n - 1, ms[n - 1].imports@, ms[n - 1].trait_impls@);
        lemma_module_impl_entries_point(ms, n - 1, ms[n - 1].trait_impls@.len() as int);
        assert(ms[n - 1].trait_impls@.take(ms[n - 1].trait_impls@.len() as int) =~= ms[n - 1].trait_impls@);
        assert forall|a: int| 0 <= a < impl_entries_spec(ms, ix, n).len() implies impl_entry_points(
            ms,
            #[trigger] impl_entries_spec(ms, ix, n)[a],
        ) by {
            if a < rest.len() {
                assert(impl_entries_spec(ms, ix, n)[a] == rest[a]);
            } else {
                assert(impl_entries_spec(ms, ix, n)[a] == mine[a - rest.len()]);
            }
        }
    }
}

/// Each implementation the emitted resolution table lists stands for an
/// implementation of the program, and points at a declaration of the
/// trait it implements and at the definition of the type it is for.
pub proof fn lemma_table_impls_point_at_declarations(ms: Seq<ModuleDef>, r: ResolutionTable)
    requires
        resolution_of(ms, index_of(ms), r),
    ensures
        forall|a: int| 0 <= a < r.impls@.len() ==> impl_entry_points(ms, #[trigger] r.impls@[a]),
{
    lemma_impl_entries_point(ms, ms.len());
}

/// The resolution table of a program is determined by the program and its
/// index: two tables that both are its resolution table list the same
/// modules, types, traits, implementations, generic types and imports, in
/// the same order. So the table `Emitter::emit` builds is the one.
pub proof fn lemma_resolution_unique(ms: Seq<ModuleDef>, ix: IndexView, r1: ResolutionTable, r2: ResolutionTable)
    requires
        resolution_of(ms, ix, r1),
        resolution_of(ms, ix, r2),
    ensures
        module_entries_view(r1.modules@) == module_entries_view(r2.modules@),
        type_entries_view(r1.types@) == type_entries_view(r2.types@),
        trait_entries_view(r1.traits@) == trait_entries_view(r2.traits@),
        r1.impls@ == r2.impls@,
        r1.generics@ == r2.generics@,
        import_resolutions_view(r1.imports@) == import_resolutions_view(r2.imports@),
{
    crate::order::lemma_sorted_unique(true, module_entries_view(r1.modules@), module_entries_view(r2.modules@));
    crate::order::lemma_sorted_unique(true, type_entries_view(r1.types@), type_entries_view(r2.types@));
    crate::order::lemma_sorted_unique(true, trait_entries_view(r1.traits@), trait_entries_view(r2.traits@));
    let k1 = choose|keys: Seq<(Seq<char>, u32, crate::program::GenericEntry)>|
        #[trigger] crate::order::strictly_sorted(false, crate::order::triple_keys(keys))
            && keys.to_set() == crate::emit::generic_entry_set(ix) && r1.generics@ == Seq::new(keys.len(), |i: int| keys[i].2);
    let k2 = choose|keys: Seq<(Seq<char>, u32, crate::program::GenericEntry)>|
        #[trigger] crate::order::strictly_sorted(false, crate::order::triple_keys(keys))
            && keys.to_set() == crate::emit::generic_entry_set(ix) && r2.generics@ == Seq::new(keys.len(), |i: int| keys[i].2);
    crate::order::lemma_sorted_unique(false, k1, k2);
    assert(r1.generics@ =~= r2.generics@);
}

} // verus!
