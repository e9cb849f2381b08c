//! What the emitted table says of the program's imports: one group for
//! each import that brings in something its source defines, in program
//! order, listing exactly the items found with where they are defined.

use vstd::prelude::*;

use crate::ast::{ImportItem, ModuleDef, ModuleImport};
use crate::emit::{import_resolutions_spec, import_resolutions_view, module_import_resolutions, resolution_of, resolved_items, type_location_of};
use crate::index::{IndexView, TypeKind as IdxTypeKind};
use crate::program::{ResolutionTable, TypeKind, TypeLocation};

verus! {

/// Every import of the program with the position of the module that makes
/// it, in program order: the first `n` modules one after another, each
/// module's imports in order.
pub open spec fn program_imports(ms: Seq<ModuleDef>, n: nat) -> Seq<(int, ModuleImport)>
    decreases n,
{
    if n == 0 || n > ms.len() {
        seq![]
    } else {
        program_imports(ms, (n - 1) as nat) + Seq::new(ms[n - 1].imports@.len(), |i: int| (n - 1, ms[n - 1].imports@[i]))
    }
}

/// Where the module at `s` defines an imported item: a type by its kind
/// and position, a trait by its declaration's position (under the kind
/// `Enum`); nothing when it defines no such item.
pub open spec fn item_location(ix: IndexView, s: usize, it: ImportItem) -> Option<(Seq<char>, TypeLocation)> {
    match it {
        ImportItem::Type_(n) => if s < ix.types.len() && ix.types[s as int].contains_key(n.0@) {
            Some((n.0@, type_location_of(s as int, ix.types[s as int][n.0@])))
        } else {
            None
        },
        ImportItem::Trait(n) => if s < ix.traits.len() && ix.traits[s as int].contains_key(n.0@) {
            Some((n.0@, TypeLocation { module: s as u32, kind: TypeKind::Enum, index: ix.traits[s as int][n.0@] as u32 }))
        } else {
            None
        },
    }
}

pub open spec fn located_in(ix: IndexView, s: usize) -> spec_fn(ImportItem) -> Option<(Seq<char>, TypeLocation)> {
    |it: ImportItem| item_location(ix, s, it)
}

/// The group an import of the module at `mi` adds to the table: that
/// position with the imported items that the source module defines, in
/// the import's order; none where the source is no module of the program
/// or defines none of the items.
pub open spec fn import_group(ix: IndexView, mi: int, imp: ModuleImport) -> Option<(u32, Seq<(Seq<char>, TypeLocation)>)> {
    if ix.modules.contains_key(imp.source.0@) {
        let items = imp.names@.filter_map(located_in(ix, ix.modules[imp.source.0@]));
        if items.len() > 0 {
            Some((mi as u32, items))
        } else {
            None
        }
    } else {
        None
    }
}

pub open spec fn grouped(ix: IndexView) -> spec_fn((int, ModuleImport)) -> Option<(u32, Seq<(Seq<char>, TypeLocation)>)> {
    |p: (int, ModuleImport)| import_group(ix, p.0, p.1)
}

proof fn lemma_filter_map_concat<A, B>(a: Seq<A>, b: Seq<A>, f: spec_fn(A) -> Option<B>)
    ensures
        (a + b).filter_map(f) == a.filter_map(f) + b.filter_map(f),
    decreases b.len(),
{
    if b.len() == 0 {
        assert(a + b =~= a);
        assert(b.filter_map(f) =~= Seq::<B>::empty());
        assert(a.filter_map(f) + b.filter_map(f) =~= a.filter_map(f));
    } else {
        lemma_filter_map_concat(a, b.drop_last(), f);
        assert((a + b).drop_last() =~= a + b.drop_last());
        assert((a + b).last() == b.last());
        match f(b.last()) {
            Some(x) => {
                assert((a + b).filter_map(f) =~= a.filter_map(f) + b.filter_map(f));
            },
            None => {},
        }
    }
}

proof fn lemma_resolved_items_located(ix: IndexView, s: usize, items: Seq<ImportItem>)
    ensures
        resolved_items(ix, s, items) == items.filter_map(located_in(ix, s)),
    decreases items.len(),
{
    if items.len() > 0 {
        lemma_resolved_items_located(ix, s, items.drop_last());
        let f = located_in(ix, s);
        assert(f(items.last()) == item_location(ix, s, items.last()));
        match f(items.last()) {
            Some(x) => {
                assert(resolved_items(ix, s, items) =~= items.filter_map(f));
            },
            None => {},
        }
    }
}

proof fn lemma_module_groups(ix: IndexView, mi: int, imps: Seq<ModuleImport>)
    ensures
        module_import_resolutions(ix, mi, imps) == Seq::new(imps.len(), |i: int| (mi, imps[i])).filter_map(grouped(ix)),
    decreases imps.len(),
{
    let tagged = Seq::new(imps.len(), |i: int| (mi, imps[i]));
    if imps.len() == 0 {
        assert(tagged.filter_map(grouped(ix)) =~= Seq::<(u32, Seq<(Seq<char>, TypeLocation)>)>::empty());
    } else {
        let init = imps.drop_last();
        lemma_module_groups(ix, mi, init);
        assert(tagged.drop_last() =~= Seq::new(init.len(), |i: int| (mi, init[i])));
        let imp = imps.last();
        assert(tagged.last() == (mi, imp));
        if ix.modules.contains_key(imp.source.0@) {
            lemma_resolved_items_located(ix, ix.modules[imp.source.0@], imp.names@);
        }
        let g = grouped(ix);
        assert(g(tagged.last()) == import_group(ix, mi, imp));
        match g(tagged.last()) {
            Some(x) => {
                assert(module_import_resolutions(ix, mi, imps) =~= tagged.filter_map(g));
            },
            None => {},
        }
    }
}

proof fn lemma_program_groups(ms: Seq<ModuleDef>, ix: IndexView, n: nat)
    requires
        n <= ms.len(),
    ensures
        import_resolutions_spec(ms, ix, n) == program_imports(ms, n).filter_map(grouped(ix)),
    decreases n,
{
    if n == 0 {
        assert(program_imports(ms, n).filter_map(grouped(ix)) =~= Seq::<(u32, Seq<(Seq<char>, TypeLocation)>)>::empty());
    } else {
        lemma_program_groups(ms, ix, (n - 1) as nat);
        let imps = ms[n - 1].imports@;
        let tagged = Seq::new(imps.len(), |i: int| (n - 1, imps[i]));
        lemma_module_groups(ix, n - 1, imps);
        lemma_filter_map_concat(program_imports(ms, (n - 1) as nat), tagged, grouped(ix));
        assert(Seq::new(ms[n - 1].imports@.len(), |i: int| (n - 1, ms[n - 1].imports@[i])) == tagged);
    }
}

/// The import groups of a program's resolution table: one for each import
/// of the program, taken in program order (module by module, each
/// module's imports in order), whose source is a module of the program
/// that defines at least one of the imported items; each group names the
/// importing module's position and lists exactly the imported items its
/// source defines, in the import's order, each with where it is defined.
pub proof fn lemma_import_groups_complete(ms: Seq<ModuleDef>, ix: IndexView, r: ResolutionTable)
    requires
        resolution_of(ms, ix, r),
    ensures
        import_resolutions_view(r.imports@) == program_imports(ms, ms.len()).filter_map(grouped(ix)),
{
    lemma_program_groups(ms, ix, ms.len());
}

} // verus!
