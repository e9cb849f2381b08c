//! The lookup index of a program: which module stands at which position,
//! what each module defines, exports and can see, and which modules each
//! imports from.

use vstd::prelude::*;

use crate::ast::{
    primitive_arity, EnumChild, EnumDef, ExportItem, ImportItem, ModuleDef, ModuleImport, NewtypeDef,
    ConstDef, Primitive, StructChild, StructDef, TraitDeclDef,
};
use crate::table::{map_of, NameSet, NameTable};

verus! {

/// The kind of definition a type name stands for.
#[derive(Debug, Clone, Copy, PartialEq, Eq, Structural)]
pub enum TypeKind {
    Enum,
    Struct,
    Newtype,
    Const,
}

/// The position that nested definitions are registered under: they have
/// none of their own in the module's lists.
pub open spec fn nested_position() -> usize {
    usize::MAX
}

/// The name a nested definition is reachable by from outside its parent:
/// the parent's name, a dot, and its own name.
pub open spec fn scoped_name(parent: Seq<char>, name: Seq<char>) -> Seq<char> {
    parent + "."@ + name
}

/// Type registrations made by the nested definitions among the children
/// of an enum reachable as `parent`, depth first, in order: each nested
/// definition under its own name and under its scoped name.
pub open spec fn nested_enum_regs(parent: Seq<char>, children: Seq<EnumChild>) -> Seq<(Seq<char>, (TypeKind, usize))>
    decreases children,
{
    if children.len() == 0 {
        seq![]
    } else {
        let rest = nested_enum_regs(parent, children.drop_last());
        match children.last() {
            EnumChild::NestedEnum(e) => rest + seq![
                (e.name.0@, (TypeKind::Enum, nested_position())),
                (scoped_name(parent, e.name.0@), (TypeKind::Enum, nested_position())),
            ] + nested_enum_regs(scoped_name(parent, e.name.0@), e.children@),
            EnumChild::NestedStruct(s) => rest + seq![
                (s.name.0@, (TypeKind::Struct, nested_position())),
                (scoped_name(parent, s.name.0@), (TypeKind::Struct, nested_position())),
            ] + nested_struct_regs(scoped_name(parent, s.name.0@), s.children@),
            _ => rest,
        }
    }
}

/// Type registrations made by the nested definitions among the children
/// of a struct reachable as `parent`.
pub open spec fn nested_struct_regs(parent: Seq<char>, children: Seq<StructChild>) -> Seq<(Seq<char>, (TypeKind, usize))>
    decreases children,
{
    if children.len() == 0 {
        seq![]
    } else {
        let rest = nested_struct_regs(parent, children.drop_last());
        match children.last() {
            StructChild::NestedEnum(e) => rest + seq![
                (e.name.0@, (TypeKind::Enum, nested_position())),
                (scoped_name(parent, e.name.0@), (TypeKind::Enum, nested_position())),
            ] + nested_enum_regs(scoped_name(parent, e.name.0@), e.children@),
            StructChild::NestedStruct(s) => rest + seq![
                (s.name.0@, (TypeKind::Struct, nested_position())),
                (scoped_name(parent, s.name.0@), (TypeKind::Struct, nested_position())),
            ] + nested_struct_regs(scoped_name(parent, s.name.0@), s.children@),
            _ => rest,
        }
    }
}

pub open spec fn enum_regs(es: Seq<EnumDef>) -> Seq<(Seq<char>, (TypeKind, usize))>
    decreases es.len(),
{
    if es.len() == 0 {
        seq![]
    } else {
        enum_regs(es.drop_last()) + seq![(es.last().name.0@, (TypeKind::Enum, (es.len() - 1) as usize))]
            + nested_enum_regs(es.last().name.0@, es.last().children@)
    }
}

pub open spec fn struct_regs(ss: Seq<StructDef>) -> Seq<(Seq<char>, (TypeKind, usize))>
    decreases ss.len(),
{
    if ss.len() == 0 {
        seq![]
    } else {
        struct_regs(ss.drop_last()) + seq![(ss.last().name.0@, (TypeKind::Struct, (ss.len() - 1) as usize))]
            + nested_struct_regs(ss.last().name.0@, ss.last().children@)
    }
}

pub open spec fn newtype_regs(ns: Seq<NewtypeDef>) -> Seq<(Seq<char>, (TypeKind, usize))> {
    Seq::new(ns.len(), |i: int| (ns[i].name.0@, (TypeKind::Newtype, i as usize)))
}

pub open spec fn const_regs(cs: Seq<ConstDef>) -> Seq<(Seq<char>, (TypeKind, usize))> {
    Seq::new(cs.len(), |i: int| (cs[i].name.0@, (TypeKind::Const, i as usize)))
}

/// Every type registration of a module, in the order the index makes them:
/// enums, structs (each followed by its nested definitions), newtypes,
/// consts. Each definition is registered at its position in its list.
pub open spec fn type_regs(m: ModuleDef) -> Seq<(Seq<char>, (TypeKind, usize))> {
    enum_regs(m.enums@) + struct_regs(m.structs@) + newtype_regs(m.newtypes@) + const_regs(m.consts@)
}

/// The generic arity registrations of a module: its top-level types (a
/// const has none), then its traits.
pub open spec fn enum_arity_regs(es: Seq<EnumDef>) -> Seq<(Seq<char>, usize)> {
    Seq::new(es.len(), |i: int| (es[i].name.0@, es[i].generic_params.len()))
}

pub open spec fn struct_arity_regs(ss: Seq<StructDef>) -> Seq<(Seq<char>, usize)> {
    Seq::new(ss.len(), |i: int| (ss[i].name.0@, ss[i].generic_params.len()))
}

pub open spec fn newtype_arity_regs(ns: Seq<NewtypeDef>) -> Seq<(Seq<char>, usize)> {
    Seq::new(ns.len(), |i: int| (ns[i].name.0@, ns[i].generic_params.len()))
}

pub open spec fn const_arity_regs(cs: Seq<ConstDef>) -> Seq<(Seq<char>, usize)> {
    Seq::new(cs.len(), |i: int| (cs[i].name.0@, 0usize))
}

pub open spec fn trait_arity_regs(ts: Seq<TraitDeclDef>) -> Seq<(Seq<char>, usize)> {
    Seq::new(ts.len(), |i: int| (ts[i].name.0@, ts[i].generic_params.len()))
}

/// The generic arity registrations of a module: its top-level types (a
/// const has none), then its traits.
pub open spec fn arity_regs(m: ModuleDef) -> Seq<(Seq<char>, usize)> {
    enum_arity_regs(m.enums@) + struct_arity_regs(m.structs@) + newtype_arity_regs(m.newtypes@)
        + const_arity_regs(m.consts@) + trait_arity_regs(m.trait_decls@)
}

pub open spec fn trait_regs(m: ModuleDef) -> Seq<(Seq<char>, usize)> {
    Seq::new(m.trait_decls@.len(), |i: int| (m.trait_decls@[i].name.0@, i as usize))
}

pub open spec fn module_bindings(ms: Seq<ModuleDef>) -> Seq<(Seq<char>, usize)> {
    Seq::new(ms.len(), |i: int| (ms[i].name.0@, i as usize))
}

/// Module name to position; of two modules with one name, the later wins.
pub open spec fn module_map(ms: Seq<ModuleDef>) -> Map<Seq<char>, usize> {
    map_of(module_bindings(ms))
}

pub open spec fn exported_type_names(es: Seq<ExportItem>) -> Seq<Seq<char>>
    decreases es.len(),
{
    if es.len() == 0 {
        seq![]
    } else {
        let rest = exported_type_names(es.drop_last());
        match es.last() {
            ExportItem::Type_(n) => rest.push(n.0@),
            ExportItem::Trait(_) => rest,
        }
    }
}

pub open spec fn exported_trait_names(es: Seq<ExportItem>) -> Seq<Seq<char>>
    decreases es.len(),
{
    if es.len() == 0 {
        seq![]
    } else {
        let rest = exported_trait_names(es.drop_last());
        match es.last() {
            ExportItem::Type_(_) => rest,
            ExportItem::Trait(n) => rest.push(n.0@),
        }
    }
}

pub open spec fn item_type_names(items: Seq<ImportItem>) -> Seq<Seq<char>>
    decreases items.len(),
{
    if items.len() == 0 {
        seq![]
    } else {
        let rest = item_type_names(items.drop_last());
        match items.last() {
            ImportItem::Type_(n) => rest.push(n.0@),
            ImportItem::Trait(_) => rest,
        }
    }
}

pub open spec fn item_trait_names(items: Seq<ImportItem>) -> Seq<Seq<char>>
    decreases items.len(),
{
    if items.len() == 0 {
        seq![]
    } else {
        let rest = item_trait_names(items.drop_last());
        match items.last() {
            ImportItem::Type_(_) => rest,
            ImportItem::Trait(n) => rest.push(n.0@),
        }
    }
}

/// Type names brought in by the imports whose source module exists.
pub open spec fn imported_type_names(mods: Map<Seq<char>, usize>, imps: Seq<ModuleImport>) -> Seq<Seq<char>>
    decreases imps.len(),
{
    if imps.len() == 0 {
        seq![]
    } else {
        let rest = imported_type_names(mods, imps.drop_last());
        if mods.contains_key(imps.last().source.0@) {
            rest + item_type_names(imps.last().names@)
        } else {
            rest
        }
    }
}

/// Trait names brought in by the imports whose source module exists.
pub open spec fn imported_trait_names(mods: Map<Seq<char>, usize>, imps: Seq<ModuleImport>) -> Seq<Seq<char>>
    decreases imps.len(),
{
    if imps.len() == 0 {
        seq![]
    } else {
        let rest = imported_trait_names(mods, imps.drop_last());
        if mods.contains_key(imps.last().source.0@) {
            rest + item_trait_names(imps.last().names@)
        } else {
            rest
        }
    }
}

/// The modules that the imports name and that exist, each once, in the
/// order of their first import.
pub open spec fn import_deps(mods: Map<Seq<char>, usize>, imps: Seq<ModuleImport>) -> Seq<usize>
    decreases imps.len(),
{
    if imps.len() == 0 {
        seq![]
    } else {
        let rest = import_deps(mods, imps.drop_last());
        let src = imps.last().source.0@;
        if mods.contains_key(src) && !rest.contains(mods[src]) {
            rest.push(mods[src])
        } else {
            rest
        }
    }
}

/// What an index holds, per module position.
pub struct IndexView {
    pub modules: Map<Seq<char>, usize>,
    pub types: Seq<Map<Seq<char>, (TypeKind, usize)>>,
    pub traits: Seq<Map<Seq<char>, usize>>,
    pub arities: Seq<Map<Seq<char>, usize>>,
    pub visible_types: Seq<Set<Seq<char>>>,
    pub visible_traits: Seq<Set<Seq<char>>>,
    pub exported_types: Seq<Set<Seq<char>>>,
    pub exported_traits: Seq<Set<Seq<char>>>,
    pub import_graph: Seq<Seq<usize>>,
}

/// The index of a program: for each module, the types and traits it
/// defines (nested types included), their arities, the names it exports,
/// the names visible in it (defined or imported from an existing module)
/// and the modules it imports from.
pub open spec fn index_of(ms: Seq<ModuleDef>) -> IndexView {
    let mods = module_map(ms);
    IndexView {
        modules: mods,
        types: Seq::new(ms.len(), |i: int| map_of(type_regs(ms[i]))),
        traits: Seq::new(ms.len(), |i: int| map_of(trait_regs(ms[i]))),
        arities: Seq::new(ms.len(), |i: int| map_of(arity_regs(ms[i]))),
        visible_types: Seq::new(ms.len(), |i: int|
            map_of(type_regs(ms[i])).dom() + imported_type_names(mods, ms[i].imports@).to_set()),
        visible_traits: Seq::new(ms.len(), |i: int|
            map_of(trait_regs(ms[i])).dom() + imported_trait_names(mods, ms[i].imports@).to_set()),
        exported_types: Seq::new(ms.len(), |i: int| exported_type_names(ms[i].exports@).to_set()),
        exported_traits: Seq::new(ms.len(), |i: int| exported_trait_names(ms[i].exports@).to_set()),
        import_graph: Seq::new(ms.len(), |i: int| import_deps(mods, ms[i].imports@)),
    }
}

pub open spec fn ix_type_exists(ix: IndexView, mi: int, name: Seq<char>) -> bool {
    primitive_arity(name) is Some || (0 <= mi < ix.visible_types.len()
        && ix.visible_types[mi].contains(name))
}

pub open spec fn ix_trait_exists(ix: IndexView, mi: int, name: Seq<char>) -> bool {
    0 <= mi < ix.visible_traits.len() && ix.visible_traits[mi].contains(name)
}

pub open spec fn ix_type_arity(ix: IndexView, mi: int, name: Seq<char>) -> Option<nat> {
    match primitive_arity(name) {
        Some(a) => Some(a),
        None => if 0 <= mi < ix.arities.len() && ix.arities[mi].contains_key(name) {
            Some(ix.arities[mi][name] as nat)
        } else {
            None
        },
    }
}

/// The lookup index of a program, one entry per module position.
pub struct Index {
    /// Module name to position.
    pub modules: NameTable<usize>,
    /// Per module: type name to its kind and position in its list.
    pub types: Vec<NameTable<(TypeKind, usize)>>,
    /// Per module: trait name to its position among the declarations.
    pub traits: Vec<NameTable<usize>>,
    /// Per module: type or trait name to its number of generic parameters.
    pub arities: Vec<NameTable<usize>>,
    /// Per module: type names visible (defined or imported).
    pub visible_types: Vec<NameSet>,
    /// Per module: trait names visible (defined or imported).
    pub visible_traits: Vec<NameSet>,
    /// Per module: type names exported.
    pub exported_types: Vec<NameSet>,
    /// Per module: trait names exported.
    pub exported_traits: Vec<NameSet>,
    /// Per module: the positions of the modules it imports from.
    pub import_graph: Vec<Vec<usize>>,
}

impl View for Index {
    type V = IndexView;

    open spec fn view(&self) -> IndexView {
        IndexView {
            modules: self.modules@,
            types: Seq::new(self.types@.len(), |i: int| self.types@[i]@),
            traits: Seq::new(self.traits@.len(), |i: int| self.traits@[i]@),
            arities: Seq::new(self.arities@.len(), |i: int| self.arities@[i]@),
            visible_types: Seq::new(self.visible_types@.len(), |i: int| self.visible_types@[i]@),
            visible_traits: Seq::new(self.visible_traits@.len(), |i: int| self.visible_traits@[i]@),
            exported_types: Seq::new(self.exported_types@.len(), |i: int| self.exported_types@[i]@),
            exported_traits: Seq::new(self.exported_traits@.len(), |i: int| self.exported_traits@[i]@),
            import_graph: Seq::new(self.import_graph@.len(), |i: int| self.import_graph@[i]@),
        }
    }
}

fn push_unique(v: &mut Vec<usize>, x: usize)
    ensures
        final(v)@ == (if old(v)@.contains(x) { old(v)@ } else { old(v)@.push(x) }),
{
    let n = v.len();
    for i in 0..n
        invariant
            n == v@.len(),
            v@ == old(v)@,
            forall|j: int| 0 <= j < i ==> v@[j] != x,
    {
        if v[i] == x {
            assert(v@[i as int] == x);
            return;
        }
    }
    v.push(x);
}

impl Index {
    fn register_type(
        types: &mut NameTable<(TypeKind, usize)>,
        arities: &mut NameTable<usize>,
        vis: &mut NameSet,
        name: &String,
        kind: TypeKind,
        idx: usize,
        arity: usize,
    )
        requires
            old(vis)@ == old(types)@.dom(),
        ensures
            final(types).bindings() == old(types).bindings().push((name@, (kind, idx))),
            final(arities).bindings() == old(arities).bindings().push((name@, arity)),
            final(vis)@ == final(types)@.dom(),
    {
        types.insert(name.clone(), (kind, idx));
        arities.insert(name.clone(), arity);
        vis.insert(name.clone());
        assert(types.bindings().drop_last() == old(types).bindings());
    }

    /// The scoped name of `name` inside `parent`.
    fn scoped(parent: &str, name: &str) -> (r: String)
        ensures
            r@ == scoped_name(parent@, name@),
    {
        let mut r = String::new();
        r.append(parent);
        r.append(".");
        r.append(name);
        r
    }

    fn register_nested_in_enum(
        types: &mut NameTable<(TypeKind, usize)>,
        parent: &str,
        children: &Vec<EnumChild>,
        vis: &mut NameSet,
    )
        requires
            old(vis)@ == old(types)@.dom(),
        ensures
            final(types).bindings() == old(types).bindings() + nested_enum_regs(parent@, children@),
            final(vis)@ == final(types)@.dom(),
        decreases children@,
    {
        let n = children.len();
        for i in 0..n
            invariant
                n == children@.len(),
                types.bindings() == old(types).bindings() + nested_enum_regs(parent@, children@.take(i as int)),
                vis@ == types@.dom(),
        {
            assert(children@.take(i + 1).drop_last() =~= children@.take(i as int));
            let ghost before = types.bindings();
            match &children[i] {
                EnumChild::NestedEnum(e) => {
                    vis.insert(e.name.0.clone());
                    types.insert(e.name.0.clone(), (TypeKind::Enum, usize::MAX));
                    let scoped = Self::scoped(parent, e.name.0.as_str());
                    let ghost mid = types.bindings();
                    assert(mid.drop_last() == before);
                    assert(vis@ =~= map_of(mid).dom()) by {
                        assert(map_of(mid) == map_of(before).insert(mid.last().0, mid.last().1));
                    }
                    vis.insert(scoped.clone());
                    types.insert(scoped.clone(), (TypeKind::Enum, usize::MAX));
                    assert(types.bindings().drop_last() == mid);
                    assert(vis@ =~= types@.dom()) by {
                        assert(types@ == map_of(mid).insert(types.bindings().last().0, types.bindings().last().1));
                    }
                    Self::register_nested_in_enum(types, scoped.as_str(), &e.children, vis);
                },
                EnumChild::NestedStruct(s) => {
                    vis.insert(s.name.0.clone());
                    types.insert(s.name.0.clone(), (TypeKind::Struct, usize::MAX));
                    let scoped = Self::scoped(parent, s.name.0.as_str());
                    let ghost mid = types.bindings();
                    assert(mid.drop_last() == before);
                    assert(vis@ =~= map_of(mid).dom()) by {
                        assert(map_of(mid) == map_of(before).insert(mid.last().0, mid.last().1));
                    }
                    vis.insert(scoped.clone());
                    types.insert(scoped.clone(), (TypeKind::Struct, usize::MAX));
                    assert(types.bindings().drop_last() == mid);
                    assert(vis@ =~= types@.dom()) by {
                        assert(types@ == map_of(mid).insert(types.bindings().last().0, types.bindings().last().1));
                    }
                    Self::register_nested_in_struct(types, scoped.as_str(), &s.children, vis);
                },
                _ => {},
            }
            assert(types.bindings() =~= old(types).bindings() + nested_enum_regs(parent@, children@.take(i + 1)));
        }
        assert(children@.take(n as int) =~= children@);
    }

    fn register_nested_in_struct(
        types: &mut NameTable<(TypeKind, usize)>,
        parent: &str,
        children: &Vec<StructChild>,
        vis: &mut NameSet,
    )
        requires
            old(vis)@ == old(types)@.dom(),
        ensures
            final(types).bindings() == old(types).bindings() + nested_struct_regs(parent@, children@),
            final(vis)@ == final(types)@.dom(),
        decreases children@,
    {
        let n = children.len();
        for i in 0..n
            invariant
                n == children@.len(),
                types.bindings() == old(types).bindings() + nested_struct_regs(parent@, children@.take(i as int)),
                vis@ == types@.dom(),
        {
            assert(children@.take(i + 1).drop_last() =~= children@.take(i as int));
            let ghost before = types.bindings();
            match &children[i] {
                StructChild::NestedEnum(e) => {
                    vis.insert(e.name.0.clone());
                    types.insert(e.name.0.clone(), (TypeKind::Enum, usize::MAX));
                    let scoped = Self::scoped(parent, e.name.0.as_str());
                    let ghost mid = types.bindings();
                    assert(mid.drop_last() == before);
                    assert(vis@ =~= map_of(mid).dom()) by {
                        assert(map_of(mid) == map_of(before).insert(mid.last().0, mid.last().1));
                    }
                    vis.insert(scoped.clone());
                    types.insert(scoped.clone(), (TypeKind::Enum, usize::MAX));
                    assert(types.bindings().drop_last() == mid);
                    assert(vis@ =~= types@.dom()) by {
                        assert(types@ == map_of(mid).insert(types.bindings().last().0, types.bindings().last().1));
                    }
                    Self::register_nested_in_enum(types, scoped.as_str(), &e.children, vis);
                },
                StructChild::NestedStruct(s) => {
                    vis.insert(s.name.0.clone());
                    types.insert(s.name.0.clone(), (TypeKind::Struct, usize::MAX));
                    let scoped = Self::scoped(parent, s.name.0.as_str());
                    let ghost mid = types.bindings();
                    assert(mid.drop_last() == before);
                    assert(vis@ =~= map_of(mid).dom()) by {
                        assert(map_of(mid) == map_of(before).insert(mid.last().0, mid.last().1));
                    }
                    vis.insert(scoped.clone());
                    types.insert(scoped.clone(), (TypeKind::Struct, usize::MAX));
                    assert(types.bindings().drop_last() == mid);
                    assert(vis@ =~= types@.dom()) by {
                        assert(types@ == map_of(mid).insert(types.bindings().last().0, types.bindings().last().1));
                    }
                    Self::register_nested_in_struct(types, scoped.as_str(), &s.children, vis);
                },
                _ => {},
            }
            assert(types.bindings() =~= old(types).bindings() + nested_struct_regs(parent@, children@.take(i + 1)));
        }
        assert(children@.take(n as int) =~= children@);
    }
}


impl Index {
    /// Registers every definition of one module: types (nested ones
    /// included), their arities, and traits.
    fn register_definitions(m: &ModuleDef) -> (r: (
        NameTable<(TypeKind, usize)>,
        NameTable<usize>,
        NameTable<usize>,
        NameSet,
        NameSet,
    ))
        ensures
            r.0.bindings() == type_regs(*m),
            r.1.bindings() == arity_regs(*m),
            r.2.bindings() == trait_regs(*m),
            r.3@ == map_of(type_regs(*m)).dom(),
            r.4@ == map_of(trait_regs(*m)).dom(),
    {
        let mut types: NameTable<(TypeKind, usize)> = NameTable::new();
        let mut arities: NameTable<usize> = NameTable::new();
        let mut traits: NameTable<usize> = NameTable::new();
        let mut vis_types = NameSet::new();
        let mut vis_traits = NameSet::new();
        assert(vis_types@ =~= types@.dom());
        let ghost es = m.enums@;
        let ghost ss = m.structs@;
        let ghost ns = m.newtypes@;
        let ghost cs = m.consts@;
        let ghost ts = m.trait_decls@;

        let n = m.enums.len();
        for di in 0..n
            invariant
                n == es.len(),
                es == m.enums@,
                types.bindings() == enum_regs(es.take(di as int)),
                arities.bindings() == enum_arity_regs(es).take(di as int),
                vis_types@ == types@.dom(),
        {
            let e = &m.enums[di];
            assert(es.take(di + 1).drop_last() =~= es.take(di as int));
            Self::register_type(&mut types, &mut arities, &mut vis_types, &e.name.0, TypeKind::Enum, di,
                e.generic_params.len());
            Self::register_nested_in_enum(&mut types, e.name.0.as_str(), &e.children, &mut vis_types);
            assert(types.bindings() =~= enum_regs(es.take(di + 1)));
            assert(arities.bindings() =~= enum_arity_regs(es).take(di + 1));
        }
        assert(es.take(n as int) =~= es);
        assert(enum_arity_regs(es).take(n as int) =~= enum_arity_regs(es));

        let n = m.structs.len();
        for di in 0..n
            invariant
                n == ss.len(),
                ss == m.structs@,
                es == m.enums@,
                types.bindings() == enum_regs(es) + struct_regs(ss.take(di as int)),
                arities.bindings() == enum_arity_regs(es) + struct_arity_regs(ss).take(di as int),
                vis_types@ == types@.dom(),
        {
            let s = &m.structs[di];
            assert(ss.take(di + 1).drop_last() =~= ss.take(di as int));
            Self::register_type(&mut types, &mut arities, &mut vis_types, &s.name.0, TypeKind::Struct, di,
                s.generic_params.len());
            Self::register_nested_in_struct(&mut types, s.name.0.as_str(), &s.children, &mut vis_types);
            assert(types.bindings() =~= enum_regs(es) + struct_regs(ss.take(di + 1)));
            assert(arities.bindings() =~= enum_arity_regs(es) + struct_arity_regs(ss).take(di + 1));
        }
        assert(ss.take(n as int) =~= ss);
        assert(struct_arity_regs(ss).take(n as int) =~= struct_arity_regs(ss));

        let n = m.newtypes.len();
        for di in 0..n
            invariant
                n == ns.len(),
                ns == m.newtypes@,
                types.bindings() == enum_regs(es) + struct_regs(ss) + newtype_regs(ns.take(di as int)),
                arities.bindings() == enum_arity_regs(es) + struct_arity_regs(ss) + newtype_arity_regs(ns).take(di as int),
                vis_types@ == types@.dom(),
        {
            let d = &m.newtypes[di];
            Self::register_type(&mut types, &mut arities, &mut vis_types, &d.name.0, TypeKind::Newtype, di,
                d.generic_params.len());
            assert(types.bindings() =~= enum_regs(es) + struct_regs(ss) + newtype_regs(ns.take(di + 1)));
            assert(arities.bindings() =~= enum_arity_regs(es) + struct_arity_regs(ss) + newtype_arity_regs(ns).take(di + 1));
        }
        assert(ns.take(n as int) =~= ns);
        assert(newtype_arity_regs(ns).take(n as int) =~= newtype_arity_regs(ns));

        let n = m.consts.len();
        for di in 0..n
            invariant
                n == cs.len(),
                cs == m.consts@,
                types.bindings() == enum_regs(es) + struct_regs(ss) + newtype_regs(ns) + const_regs(
                    cs.take(di as int),
                ),
                arities.bindings() == enum_arity_regs(es) + struct_arity_regs(ss) + newtype_arity_regs(ns) + const_arity_regs(cs).take(di as int),
                vis_types@ == types@.dom(),
        {
            let c = &m.consts[di];
            Self::register_type(&mut types, &mut arities, &mut vis_types, &c.name.0, TypeKind::Const, di, 0);
            assert(types.bindings() =~= enum_regs(es) + struct_regs(ss) + newtype_regs(ns) + const_regs(
                cs.take(di + 1),
            ));
            assert(arities.bindings() =~= enum_arity_regs(es) + struct_arity_regs(ss) + newtype_arity_regs(ns) + const_arity_regs(cs).take(di + 1));
        }
        assert(cs.take(n as int) =~= cs);
        assert(const_arity_regs(cs).take(n as int) =~= const_arity_regs(cs));

        assert(vis_traits@ =~= traits@.dom());
        let n = m.trait_decls.len();
        for di in 0..n
            invariant
                n == ts.len(),
                ts == m.trait_decls@,
                traits.bindings() == trait_regs(*m).take(di as int),
                arities.bindings() == enum_arity_regs(es) + struct_arity_regs(ss) + newtype_arity_regs(ns) + const_arity_regs(cs) + trait_arity_regs(ts).take(
                    di as int,
                ),
                vis_traits@ == traits@.dom(),
        {
            let t = &m.trait_decls[di];
            traits.insert(t.name.0.clone(), di);
            arities.insert(t.name.0.clone(), t.generic_params.len());
            vis_traits.insert(t.name.0.clone());
            assert(traits.bindings().drop_last() == trait_regs(*m).take(di as int));
            assert(traits.bindings() =~= trait_regs(*m).take(di + 1));
            assert(arities.bindings() =~= enum_arity_regs(es) + struct_arity_regs(ss) + newtype_arity_regs(ns) + const_arity_regs(cs) + trait_arity_regs(ts).take(
                di + 1,
            ));
        }
        assert(trait_regs(*m).take(n as int) =~= trait_regs(*m));
        assert(trait_arity_regs(ts).take(n as int) =~= trait_arity_regs(ts));
        assert(arities.bindings() =~= arity_regs(*m));
        (types, arities, traits, vis_types, vis_traits)
    }

    /// The names a module exports, types and traits apart.
    fn collect_exports(m: &ModuleDef) -> (r: (NameSet, NameSet))
        ensures
            r.0@ == exported_type_names(m.exports@).to_set(),
            r.1@ == exported_trait_names(m.exports@).to_set(),
    {
        let mut exp_types = NameSet::new();
        let mut exp_traits = NameSet::new();
        let ghost es = m.exports@;
        assert(exported_type_names(es.take(0)).to_set() =~= Set::<Seq<char>>::empty());
        assert(exported_trait_names(es.take(0)).to_set() =~= Set::<Seq<char>>::empty());
        let n = m.exports.len();
        for i in 0..n
            invariant
                n == es.len(),
                es == m.exports@,
                exp_types@ == exported_type_names(es.take(i as int)).to_set(),
                exp_traits@ == exported_trait_names(es.take(i as int)).to_set(),
        {
            assert(es.take(i + 1).drop_last() =~= es.take(i as int));
            match &m.exports[i] {
                ExportItem::Type_(name) => {
                    exp_types.insert(name.0.clone());
                    proof {
                        exported_type_names(es.take(i as int)).lemma_push_to_set_commute(name.0@);
                    }
                },
                ExportItem::Trait(name) => {
                    exp_traits.insert(name.0.clone());
                    proof {
                        exported_trait_names(es.take(i as int)).lemma_push_to_set_commute(name.0@);
                    }
                },
            }
        }
        assert(es.take(n as int) =~= es);
        (exp_types, exp_traits)
    }

    /// Adds the names of one import's items to the visible sets.
    fn add_imported_items(items: &Vec<ImportItem>, vis_types: &mut NameSet, vis_traits: &mut NameSet)
        ensures
            final(vis_types)@ == old(vis_types)@ + item_type_names(items@).to_set(),
            final(vis_traits)@ == old(vis_traits)@ + item_trait_names(items@).to_set(),
    {
        let ghost its = items@;
        assert(item_type_names(its.take(0)).to_set() =~= Set::<Seq<char>>::empty());
        assert(item_trait_names(its.take(0)).to_set() =~= Set::<Seq<char>>::empty());
        assert(old(vis_types)@ =~= old(vis_types)@ + Set::<Seq<char>>::empty());
        assert(old(vis_traits)@ =~= old(vis_traits)@ + Set::<Seq<char>>::empty());
        let n = items.len();
        for i in 0..n
            invariant
                n == its.len(),
                its == items@,
                vis_types@ == old(vis_types)@ + item_type_names(its.take(i as int)).to_set(),
                vis_traits@ == old(vis_traits)@ + item_trait_names(its.take(i as int)).to_set(),
        {
            assert(its.take(i + 1).drop_last() =~= its.take(i as int));
            match &items[i] {
                ImportItem::Type_(name) => {
                    vis_types.insert(name.0.clone());
                    proof {
                        item_type_names(its.take(i as int)).lemma_push_to_set_commute(name.0@);
                    }
                    assert(vis_types@ =~= old(vis_types)@ + item_type_names(its.take(i + 1)).to_set());
                },
                ImportItem::Trait(name) => {
                    vis_traits.insert(name.0.clone());
                    proof {
                        item_trait_names(its.take(i as int)).lemma_push_to_set_commute(name.0@);
                    }
                    assert(vis_traits@ =~= old(vis_traits)@ + item_trait_names(its.take(i + 1)).to_set());
                },
            }
        }
        assert(its.take(n as int) =~= its);
    }

    /// Follows a module's imports: the modules it depends on, and the
    /// imported names added to its visible sets.
    fn collect_imports(
        m: &ModuleDef,
        mods: &NameTable<usize>,
        vis_types: &mut NameSet,
        vis_traits: &mut NameSet,
    ) -> (deps: Vec<usize>)
        ensures
            deps@ == import_deps(mods@, m.imports@),
            final(vis_types)@ == old(vis_types)@ + imported_type_names(mods@, m.imports@).to_set(),
            final(vis_traits)@ == old(vis_traits)@ + imported_trait_names(mods@, m.imports@).to_set(),
    {
        let mut deps: Vec<usize> = Vec::new();
        let ghost imps = m.imports@;
        assert(imported_type_names(mods@, imps.take(0)).to_set() =~= Set::<Seq<char>>::empty());
        assert(imported_trait_names(mods@, imps.take(0)).to_set() =~= Set::<Seq<char>>::empty());
        assert(old(vis_types)@ =~= old(vis_types)@ + Set::<Seq<char>>::empty());
        assert(old(vis_traits)@ =~= old(vis_traits)@ + Set::<Seq<char>>::empty());
        let n = m.imports.len();
        for i in 0..n
            invariant
                n == imps.len(),
                imps == m.imports@,
                deps@ == import_deps(mods@, imps.take(i as int)),
                vis_types@ == old(vis_types)@ + imported_type_names(mods@, imps.take(i as int)).to_set(),
                vis_traits@ == old(vis_traits)@ + imported_trait_names(mods@, imps.take(i as int)).to_set(),
        {
            let imp = &m.imports[i];
            assert(imps.take(i + 1).drop_last() =~= imps.take(i as int));
            let ghost prev_t = imported_type_names(mods@, imps.take(i as int));
            let ghost prev_r = imported_trait_names(mods@, imps.take(i as int));
            if let Some(src_mi) = mods.get(imp.source.0.as_str()) {
                push_unique(&mut deps, src_mi);
                Self::add_imported_items(&imp.names, vis_types, vis_traits);
                proof {
                    vstd::seq_lib::seq_to_set_distributes_over_add(prev_t, item_type_names(imp.names@));
                    vstd::seq_lib::seq_to_set_distributes_over_add(prev_r, item_trait_names(imp.names@));
                }
                assert(vis_types@ =~= old(vis_types)@ + imported_type_names(mods@, imps.take(i + 1)).to_set());
                assert(vis_traits@ =~= old(vis_traits)@ + imported_trait_names(mods@, imps.take(i + 1)).to_set());
            }
        }
        assert(imps.take(n as int) =~= imps);
        deps
    }

    /// Builds the index of a program.
    pub fn build(modules: &[ModuleDef]) -> (idx: Index)
        ensures
            idx@ == index_of(modules@),
    {
        let ghost ms = modules@;
        let mut mods: NameTable<usize> = NameTable::new();
        let n = modules.len();
        for i in 0..n
            invariant
                n == ms.len(),
                ms == modules@,
                mods.bindings() == module_bindings(ms).take(i as int),
        {
            mods.insert(modules[i].name.0.clone(), i);
            assert(mods.bindings() =~= module_bindings(ms).take(i + 1));
        }
        assert(module_bindings(ms).take(n as int) =~= module_bindings(ms));
        let mut idx = Index {
            modules: mods,
            types: Vec::new(),
            traits: Vec::new(),
            arities: Vec::new(),
            visible_types: Vec::new(),
            visible_traits: Vec::new(),
            exported_types: Vec::new(),
            exported_traits: Vec::new(),
            import_graph: Vec::new(),
        };
        let ghost target = index_of(ms);
        for mi in 0..n
            invariant
                n == ms.len(),
                ms == modules@,
                target == index_of(ms),
                idx.modules@ == module_map(ms),
                idx.types@.len() == mi,
                idx.traits@.len() == mi,
                idx.arities@.len() == mi,
                idx.visible_types@.len() == mi,
                idx.visible_traits@.len() == mi,
                idx.exported_types@.len() == mi,
                idx.exported_traits@.len() == mi,
                idx.import_graph@.len() == mi,
                forall|j: int| 0 <= j < mi ==> idx.types@[j]@ == target.types[j],
                forall|j: int| 0 <= j < mi ==> idx.traits@[j]@ == target.traits[j],
                forall|j: int| 0 <= j < mi ==> idx.arities@[j]@ == target.arities[j],
                forall|j: int| 0 <= j < mi ==> idx.visible_types@[j]@ == target.visible_types[j],
                forall|j: int| 0 <= j < mi ==> idx.visible_traits@[j]@ == target.visible_traits[j],
                forall|j: int| 0 <= j < mi ==> idx.exported_types@[j]@ == target.exported_types[j],
                forall|j: int| 0 <= j < mi ==> idx.exported_traits@[j]@ == target.exported_traits[j],
                forall|j: int| 0 <= j < mi ==> idx.import_graph@[j]@ == target.import_graph[j],
        {
            let m = &modules[mi];
            let (types, arities, traits, mut vis_types, mut vis_traits) = Self::register_definitions(m);
            let (exp_types, exp_traits) = Self::collect_exports(m);
            let deps = Self::collect_imports(m, &idx.modules, &mut vis_types, &mut vis_traits);
            idx.types.push(types);
            idx.traits.push(traits);
            idx.arities.push(arities);
            idx.visible_types.push(vis_types);
            idx.visible_traits.push(vis_traits);
            idx.exported_types.push(exp_types);
            idx.exported_traits.push(exp_traits);
            idx.import_graph.push(deps);
        }
        assert(idx@.types =~= target.types);
        assert(idx@.traits =~= target.traits);
        assert(idx@.arities =~= target.arities);
        assert(idx@.visible_types =~= target.visible_types);
        assert(idx@.visible_traits =~= target.visible_traits);
        assert(idx@.exported_types =~= target.exported_types);
        assert(idx@.exported_traits =~= target.exported_traits);
        assert(idx@.import_graph =~= target.import_graph);
        idx
    }

    /// Whether `name` is a type in scope in module `mi`: a primitive, or a
    /// type defined in or imported into that module.
    pub fn type_exists(&self, mi: usize, name: &str) -> (r: bool)
        ensures
            r == ix_type_exists(self@, mi as int, name@),
    {
        Primitive::is_primitive(name) || (mi < self.visible_types.len() && self.visible_types[mi].contains(name))
    }

    /// Whether `name` is a trait in scope in module `mi`.
    pub fn trait_exists(&self, mi: usize, name: &str) -> (r: bool)
        ensures
            r == ix_trait_exists(self@, mi as int, name@),
    {
        mi < self.visible_traits.len() && self.visible_traits[mi].contains(name)
    }

    /// The number of type arguments `name` takes in module `mi`, when known.
    pub fn type_arity(&self, mi: usize, name: &str) -> (r: Option<usize>)
        ensures
            r matches Some(a) ==> ix_type_arity(self@, mi as int, name@) == Some(a as nat),
            r is None ==> ix_type_arity(self@, mi as int, name@) is None,
    {
        if let Some(a) = Primitive::arity_of(name) {
            return Some(a as usize);
        }
        if mi < self.arities.len() {
            self.arities[mi].get(name)
        } else {
            None
        }
    }
}

/// The state of the depth-first search for import cycles: which modules
/// have been visited, the path from the current root, and the cycles found.
pub struct DfsState {
    pub visited: Seq<bool>,
    pub stack: Seq<usize>,
    pub cycles: Seq<Seq<usize>>,
}

/// The position of the first occurrence of `x` in `s`.
pub open spec fn first_position(s: Seq<usize>, x: usize) -> int
    decreases s.len(),
{
    if s.len() == 0 || s[0] == x {
        0
    } else {
        1 + first_position(s.drop_first(), x)
    }
}

pub open spec fn graph_deps(g: Seq<Seq<usize>>, node: usize) -> Seq<usize> {
    if node < g.len() {
        g[node as int]
    } else {
        seq![]
    }
}

/// Visits `node`: marks it, walks its imports with it on the path, then
/// leaves it. `fuel` bounds the depth; the search gives enough.
pub open spec fn dfs_visit(g: Seq<Seq<usize>>, node: usize, st: DfsState, fuel: nat) -> DfsState
    decreases fuel, 1nat, 0int,
{
    if fuel == 0 {
        st
    } else {
        let st1 = DfsState { visited: st.visited.update(node as int, true), stack: st.stack.push(node), cycles: st.cycles };
        let st2 = dfs_deps(g, node, 0, st1, fuel);
        DfsState { visited: st2.visited, stack: st2.stack.drop_last(), cycles: st2.cycles }
    }
}

/// Walks the imports of `node` from the `k`-th on: an unvisited module is
/// visited; one on the path closes a cycle, the path from it to `node`.
pub open spec fn dfs_deps(g: Seq<Seq<usize>>, node: usize, k: int, st: DfsState, fuel: nat) -> DfsState
    decreases fuel, 0nat, graph_deps(g, node).len() - k,
{
    if fuel == 0 || k < 0 || k >= graph_deps(g, node).len() {
        st
    } else {
        let dep = graph_deps(g, node)[k];
        let st2 = if dep >= g.len() || dep >= st.visited.len() {
            st
        } else if !st.visited[dep as int] {
            dfs_visit(g, dep, st, (fuel - 1) as nat)
        } else if st.stack.contains(dep) {
            DfsState {
                visited: st.visited,
                stack: st.stack,
                cycles: st.cycles.push(st.stack.subrange(first_position(st.stack, dep), st.stack.len() as int)),
            }
        } else {
            st
        };
        dfs_deps(g, node, k + 1, st2, fuel)
    }
}

/// Starts a search from each of the first `k` modules not yet visited.
pub open spec fn dfs_roots(g: Seq<Seq<usize>>, k: nat) -> DfsState
    decreases k,
{
    if k == 0 {
        DfsState { visited: Seq::new(g.len(), |i: int| false), stack: seq![], cycles: seq![] }
    } else {
        let st = dfs_roots(g, (k - 1) as nat);
        if (k - 1) < st.visited.len() && !st.visited[k - 1] {
            dfs_visit(g, (k - 1) as usize, st, (g.len() + 1) as nat)
        } else {
            st
        }
    }
}

/// The entries of `s` in order, each kept at its first occurrence only.
pub open spec fn distinct_deps(s: Seq<usize>) -> Seq<usize>
    decreases s.len(),
{
    if s.len() == 0 {
        seq![]
    } else {
        let r = distinct_deps(s.drop_last());
        if r.contains(s.last()) {
            r
        } else {
            r.push(s.last())
        }
    }
}

/// The import graph with each module's repeated imports from one module
/// dropped: the same edges, each listed once.
pub open spec fn distinct_graph(g: Seq<Seq<usize>>) -> Seq<Seq<usize>> {
    Seq::new(g.len(), |i: int| distinct_deps(g[i]))
}

/// The cycles that the depth-first search of a graph reports, roots and
/// imports taken in order.
pub open spec fn search_cycles(g: Seq<Seq<usize>>) -> Seq<Seq<usize>> {
    dfs_roots(g, g.len()).cycles
}

/// The cycles reported for the import graph: those the search finds in
/// it once repeated imports are dropped.
pub open spec fn import_cycles(g: Seq<Seq<usize>>) -> Seq<Seq<usize>> {
    search_cycles(distinct_graph(g))
}

pub open spec fn graph_view(graph: Seq<Vec<usize>>) -> Seq<Seq<usize>> {
    Seq::new(graph.len(), |i: int| graph[i]@)
}

/// The number of modules not yet visited.
pub open spec fn unvisited(v: Seq<bool>) -> nat
    decreases v.len(),
{
    if v.len() == 0 {
        0
    } else {
        unvisited(v.drop_last()) + (if v.last() { 0nat } else { 1nat })
    }
}

pub proof fn lemma_unvisited_mono(a: Seq<bool>, b: Seq<bool>, j: int)
    requires
        a.len() == b.len(),
        forall|i: int| 0 <= i < a.len() && a[i] ==> b[i],
    ensures
        unvisited(b) <= unvisited(a),
        0 <= j < a.len() && !a[j] && b[j] ==> unvisited(b) < unvisited(a),
    decreases a.len(),
{
    if a.len() > 0 {
        lemma_unvisited_mono(a.drop_last(), b.drop_last(), j);
    }
}

pub open spec fn cycles_view(c: Seq<Vec<usize>>) -> Seq<Seq<usize>> {
    Seq::new(c.len(), |i: int| c[i]@)
}

pub open spec fn stack_mirror(on_stack: Seq<bool>, stack: Seq<usize>) -> bool {
    forall|u: usize| u < on_stack.len() ==> (on_stack[u as int] <==> stack.contains(u))
}

impl Index {
    /// Every import cycle found by a depth-first search over the import
    /// graph, each as the modules along it.
    pub fn find_import_cycles(&self) -> (cycles: Vec<Vec<usize>>)
        ensures
            cycles_view(cycles@) == import_cycles(self@.import_graph),
    {
        let graph = Self::distinct_import_graph(&self.import_graph);
        assert(self@.import_graph =~= graph_view(self.import_graph@));
        let ghost g = graph_view(graph@);
        let n = graph.len();
        let mut cycles: Vec<Vec<usize>> = Vec::new();
        let mut visited: Vec<bool> = Vec::new();
        let mut on_stack: Vec<bool> = Vec::new();
        for i in 0..n
            invariant
                visited@ == Seq::new(i as nat, |j: int| false),
                on_stack@ == Seq::new(i as nat, |j: int| false),
        {
            visited.push(false);
            on_stack.push(false);
            assert(visited@ =~= Seq::new((i + 1) as nat, |j: int| false));
            assert(on_stack@ =~= Seq::new((i + 1) as nat, |j: int| false));
        }
        let mut stack: Vec<usize> = Vec::new();
        assert(cycles_view(cycles@) =~= dfs_roots(g, 0).cycles);
        for mi in 0..n
            invariant
                n == g.len(),
                g == graph_view(graph@),
                visited@ == dfs_roots(g, mi as nat).visited,
                stack@ == dfs_roots(g, mi as nat).stack,
                stack@ == Seq::<usize>::empty(),
                cycles_view(cycles@) == dfs_roots(g, mi as nat).cycles,
                visited@.len() == n,
                on_stack@.len() == n,
                stack_mirror(on_stack@, stack@),
        {
            if !visited[mi] {
                proof {
                    lemma_unvisited_bound(visited@);
                }
                Self::dfs_cycle(&graph, mi, &mut visited, &mut stack, &mut on_stack, &mut cycles, Ghost((n + 1) as nat));
            }
        }
        cycles
    }

    /// Each module's imports with repeats dropped, first occurrences kept.
    fn distinct_import_graph(graph: &Vec<Vec<usize>>) -> (d: Vec<Vec<usize>>)
        ensures
            graph_view(d@) == distinct_graph(graph_view(graph@)),
    {
        let ghost g = graph_view(graph@);
        let mut d: Vec<Vec<usize>> = Vec::new();
        let n = graph.len();
        for i in 0..n
            invariant
                n == graph@.len(),
                g == graph_view(graph@),
                graph_view(d@) == distinct_graph(g).take(i as int),
        {
            let deps = &graph[i];
            let mut out: Vec<usize> = Vec::new();
            let m = deps.len();
            for k in 0..m
                invariant
                    m == deps@.len(),
                    out@ == distinct_deps(deps@.take(k as int)),
            {
                let dep = deps[k];
                let mut found = false;
                let mut j: usize = 0;
                while j < out.len()
                    invariant
                        j <= out@.len(),
                        found <==> exists|t: int| 0 <= t < j && out@[t] == dep,
                    decreases out@.len() - j,
                {
                    if out[j] == dep {
                        found = true;
                    }
                    j = j + 1;
                }
                assert(deps@.take(k + 1).drop_last() =~= deps@.take(k as int));
                assert(deps@.take(k + 1).last() == dep);
                if !found {
                    out.push(dep);
                }
            }
            assert(deps@.take(m as int) =~= deps@);
            let ghost before = d@;
            assert(deps@ == g[i as int]);
            assert(before.len() == i) by {
                assert(graph_view(before).len() == before.len());
            }
            d.push(out);
            assert(d@[i as int] == out);
            assert(graph_view(d@) =~= distinct_graph(g).take(i + 1)) by {
                assert(graph_view(d@)[i as int] == distinct_graph(g)[i as int]);
                assert forall|t: int| 0 <= t < i implies graph_view(d@)[t] == graph_view(before)[t] by {
                    assert(d@[t] == before[t]);
                }
            }
        }
        assert(distinct_graph(g).take(n as int) =~= distinct_graph(g));
        d
    }

    fn dfs_cycle(
        graph: &Vec<Vec<usize>>,
        node: usize,
        visited: &mut Vec<bool>,
        stack: &mut Vec<usize>,
        on_stack: &mut Vec<bool>,
        cycles: &mut Vec<Vec<usize>>,
        Ghost(fuel): Ghost<nat>,
    )
        requires
            node < old(visited)@.len(),
            old(visited)@.len() == graph@.len(),
            old(on_stack)@.len() == graph@.len(),
            !old(visited)@[node as int],
            fuel > unvisited(old(visited)@),
            stack_mirror(old(on_stack)@, old(stack)@),
            forall|i: int| 0 <= i < old(stack)@.len() ==> old(stack)@[i] < old(visited)@.len()
                && old(visited)@[old(stack)@[i] as int],
        ensures
            ({
                let st = dfs_visit(
                    graph_view(graph@),
                    node,
                    DfsState { visited: old(visited)@, stack: old(stack)@, cycles: cycles_view(old(cycles)@) },
                    fuel,
                );
                &&& final(visited)@ == st.visited
                &&& final(stack)@ == st.stack
                &&& cycles_view(final(cycles)@) == st.cycles
            }),
            final(stack)@ == old(stack)@,
            final(visited)@.len() == old(visited)@.len(),
            final(on_stack)@.len() == old(on_stack)@.len(),
            stack_mirror(final(on_stack)@, final(stack)@),
            final(visited)@[node as int],
            forall|i: int| 0 <= i < old(visited)@.len() && old(visited)@[i] ==> final(visited)@[i],
        decreases fuel,
    {
        let ghost g = graph_view(graph@);
        let ghost st0 = DfsState { visited: visited@, stack: stack@, cycles: cycles_view(cycles@) };
        visited.set(node, true);
        stack.push(node);
        on_stack.set(node, true);
        let ghost st1 = DfsState { visited: visited@, stack: stack@, cycles: cycles_view(cycles@) };
        proof {
            if old(stack)@.contains(node) {
                let k = choose|k: int| 0 <= k < old(stack)@.len() && old(stack)@[k] == node;
                assert(old(visited)@[old(stack)@[k] as int]);
            }
            lemma_mirror_push(old(on_stack)@, old(stack)@, node);
        }
        proof {
            lemma_unvisited_mono(old(visited)@, visited@, node as int);
        }
        let deps: &Vec<usize> = &graph[node];
        let nd = deps.len();
        let mut k: usize = 0;
        while k < nd
            invariant
                g == graph_view(graph@),
                node < g.len(),
                deps@ == graph_deps(g, node),
                nd == deps@.len(),
                k <= nd,
                fuel > 0,
                visited@.len() == g.len(),
                st1.visited.len() == g.len(),
                old(visited)@.len() == g.len(),
                on_stack@.len() == g.len(),
                stack@ == st1.stack,
                stack_mirror(on_stack@, stack@),
                forall|i: int| 0 <= i < stack@.len() ==> stack@[i] < visited@.len() && visited@[stack@[i] as int],
                forall|i: int| 0 <= i < st1.visited.len() && st1.visited[i] ==> visited@[i],
                unvisited(visited@) + 1 < fuel,
                forall|i: int| 0 <= i < old(visited)@.len() && old(visited)@[i] ==> visited@[i],
                dfs_deps(g, node, 0, st1, fuel) == dfs_deps(
                    g,
                    node,
                    k as int,
                    DfsState { visited: visited@, stack: stack@, cycles: cycles_view(cycles@) },
                    fuel,
                ),
            decreases nd - k,
        {
            let dep = deps[k];
            let ghost cur = DfsState { visited: visited@, stack: stack@, cycles: cycles_view(cycles@) };
            if dep < visited.len() {
                if !visited[dep] {
                    let ghost before = visited@;
                    Self::dfs_cycle(graph, dep, visited, stack, on_stack, cycles, Ghost((fuel - 1) as nat));
                    proof {
                        lemma_unvisited_mono(before, visited@, dep as int);
                        assert forall|i: int| 0 <= i < before.len() && before[i] implies visited@[i] by {}
                    }
                } else if on_stack[dep] {
                    let mut start: usize = 0;
                    let sl = stack.len();
                    assert(stack@.subrange(0, sl as int) =~= stack@);
                    while start < sl && stack[start] != dep
                        invariant
                            sl == stack@.len(),
                            start <= sl,
                            stack@.contains(dep),
                            first_position(stack@, dep) == start + first_position(stack@.subrange(start as int, sl as int), dep),
                            forall|j: int| 0 <= j < start ==> stack@[j] != dep,
                        decreases sl - start,
                    {
                        assert(stack@.subrange(start as int, sl as int).drop_first() =~= stack@.subrange(start + 1, sl as int));
                        start = start + 1;
                    }
                    proof {
                        if start == sl {
                            let j = choose|j: int| 0 <= j < stack@.len() && stack@[j] == dep;
                            assert(false);
                        }
                    }
                    let mut c: Vec<usize> = Vec::new();
                    let mut j = start;
                    while j < sl
                        invariant
                            sl == stack@.len(),
                            start <= j <= sl,
                            c@ == stack@.subrange(start as int, j as int),
                        decreases sl - j,
                    {
                        c.push(stack[j]);
                        j = j + 1;
                        assert(c@ =~= stack@.subrange(start as int, j as int));
                    }
                    let ghost pre_cycles = cycles@;
                    cycles.push(c);
                    assert(cycles_view(cycles@) =~= cycles_view(pre_cycles).push(stack@.subrange(first_position(stack@, dep), stack@.len() as int)));
                }
            }
            assert forall|i: int| 0 <= i < cur.visited.len() && cur.visited[i] implies visited@[i] by {}
            assert forall|i: int| 0 <= i < st1.visited.len() && st1.visited[i] implies visited@[i] by {
                assert(cur.visited[i]);
            }
            assert forall|i: int| 0 <= i < old(visited)@.len() && old(visited)@[i] implies visited@[i] by {
                assert(cur.visited[i]);
            }
            k = k + 1;
        }
        let ghost st2 = DfsState { visited: visited@, stack: stack@, cycles: cycles_view(cycles@) };
        assert(st2.stack[st2.stack.len() - 1] == node);
        let ghost on2 = on_stack@;
        stack.pop();
        on_stack.set(node, false);
        assert(stack@ =~= old(stack)@);
        proof {
            if old(stack)@.contains(node) {
                let k = choose|k: int| 0 <= k < old(stack)@.len() && old(stack)@[k] == node;
                assert(old(visited)@[old(stack)@[k] as int]);
            }
            lemma_mirror_pop(st2.visited.len() as int, on2, old(stack)@, node, st2.stack);
        }
    }
}

proof fn lemma_mirror_push(on: Seq<bool>, stack: Seq<usize>, node: usize)
    requires
        stack_mirror(on, stack),
        node < on.len(),
    ensures
        stack_mirror(on.update(node as int, true), stack.push(node)),
{
    let on2 = on.update(node as int, true);
    let s2 = stack.push(node);
    assert forall|u: usize| u < on2.len() implies (on2[u as int] <==> s2.contains(u)) by {
        assert(s2[stack.len() as int] == node);
        if u != node {
            if s2.contains(u) {
                let k = choose|k: int| 0 <= k < s2.len() && s2[k] == u;
                assert(stack[k] == u);
            }
            if stack.contains(u) {
                let k = choose|k: int| 0 <= k < stack.len() && stack[k] == u;
                assert(s2[k] == u);
            }
        }
    }
}

proof fn lemma_mirror_pop(n: int, on: Seq<bool>, stack: Seq<usize>, node: usize, pushed: Seq<usize>)
    requires
        pushed == stack.push(node),
        stack_mirror(on, pushed),
        !stack.contains(node),
        node < on.len(),
    ensures
        stack_mirror(on.update(node as int, false), stack),
{
    let on2 = on.update(node as int, false);
    assert forall|u: usize| u < on2.len() implies (on2[u as int] <==> stack.contains(u)) by {
        if u != node {
            if pushed.contains(u) {
                let k = choose|k: int| 0 <= k < pushed.len() && pushed[k] == u;
                assert(k != stack.len());
                assert(stack[k] == u);
            }
            if stack.contains(u) {
                let k = choose|k: int| 0 <= k < stack.len() && stack[k] == u;
                assert(pushed[k] == u);
            }
        }
    }
}

pub proof fn lemma_unvisited_bound(v: Seq<bool>)
    ensures
        unvisited(v) <= v.len(),
    decreases v.len(),
{
    if v.len() > 0 {
        lemma_unvisited_bound(v.drop_last());
    }
}

/// `c` is a cycle of the import graph: a non-empty list of modules, each
/// importing from the next, the last importing from the first.
pub open spec fn is_import_cycle(g: Seq<Seq<usize>>, c: Seq<usize>) -> bool {
    &&& c.len() > 0
    &&& forall|i: int| 0 <= i < c.len() ==> c[i] < g.len()
    &&& forall|i: int| 0 <= i < c.len() - 1 ==> graph_deps(g, #[trigger] c[i]).contains(c[i + 1])
    &&& graph_deps(g, c.last()).contains(c[0])
}

/// A path of the import graph: each module imports from the next.
pub open spec fn is_import_path(g: Seq<Seq<usize>>, p: Seq<usize>) -> bool {
    &&& forall|i: int| 0 <= i < p.len() ==> p[i] < g.len()
    &&& forall|i: int| 0 <= i < p.len() - 1 ==> graph_deps(g, #[trigger] p[i]).contains(p[i + 1])
}

pub open spec fn dfs_state_ok(g: Seq<Seq<usize>>, st: DfsState) -> bool {
    &&& st.visited.len() == g.len()
    &&& is_import_path(g, st.stack)
    &&& forall|i: int| 0 <= i < st.cycles.len() ==> is_import_cycle(g, #[trigger] st.cycles[i])
}

pub proof fn lemma_first_position(s: Seq<usize>, x: usize)
    requires
        s.contains(x),
    ensures
        0 <= first_position(s, x) < s.len(),
        s[first_position(s, x)] == x,
    decreases s.len(),
{
    if s[0] != x {
        let k = choose|k: int| 0 <= k < s.len() && s[k] == x;
        assert(s.drop_first()[k - 1] == x);
        lemma_first_position(s.drop_first(), x);
    }
}

proof fn lemma_dfs_visit_ok(g: Seq<Seq<usize>>, node: usize, st: DfsState, fuel: nat)
    requires
        dfs_state_ok(g, st),
        node < g.len(),
        st.stack.len() == 0 || graph_deps(g, st.stack.last()).contains(node),
    ensures
        dfs_state_ok(g, dfs_visit(g, node, st, fuel)),
        dfs_visit(g, node, st, fuel).stack == st.stack,
    decreases fuel, 1nat, 0int,
{
    if fuel > 0 {
        let st1 = DfsState { visited: st.visited.update(node as int, true), stack: st.stack.push(node), cycles: st.cycles };
        assert(is_import_path(g, st1.stack)) by {
            assert forall|i: int| 0 <= i < st1.stack.len() - 1 implies graph_deps(g, #[trigger] st1.stack[i]).contains(
                st1.stack[i + 1],
            ) by {
                if i < st.stack.len() - 1 {
                    assert(st.stack[i] == st1.stack[i]);
                    assert(graph_deps(g, st.stack[i]).contains(st.stack[i + 1]));
                } else {
                    assert(st1.stack[i] == st.stack.last());
                }
            }
        }
        lemma_dfs_deps_ok(g, node, 0, st1, fuel);
        let st2 = dfs_deps(g, node, 0, st1, fuel);
        assert(st2.stack.drop_last() =~= st.stack);
    }
}

proof fn lemma_dfs_deps_ok(g: Seq<Seq<usize>>, node: usize, k: int, st: DfsState, fuel: nat)
    requires
        dfs_state_ok(g, st),
        node < g.len(),
        st.stack.len() > 0,
        st.stack.last() == node,
    ensures
        dfs_state_ok(g, dfs_deps(g, node, k, st, fuel)),
        dfs_deps(g, node, k, st, fuel).stack == st.stack,
    decreases fuel, 0nat, graph_deps(g, node).len() - k,
{
    if fuel == 0 || k < 0 || k >= graph_deps(g, node).len() {
    } else {
        let dep = graph_deps(g, node)[k];
        assert(graph_deps(g, node).contains(dep));
        let st2 = if dep >= g.len() || dep >= st.visited.len() {
            st
        } else if !st.visited[dep as int] {
            dfs_visit(g, dep, st, (fuel - 1) as nat)
        } else if st.stack.contains(dep) {
            DfsState {
                visited: st.visited,
                stack: st.stack,
                cycles: st.cycles.push(st.stack.subrange(first_position(st.stack, dep), st.stack.len() as int)),
            }
        } else {
            st
        };
        if dep >= g.len() || dep >= st.visited.len() {
        } else if !st.visited[dep as int] {
            lemma_dfs_visit_ok(g, dep, st, (fuel - 1) as nat);
        } else if st.stack.contains(dep) {
            lemma_first_position(st.stack, dep);
            let fp = first_position(st.stack, dep);
            let c = st.stack.subrange(fp, st.stack.len() as int);
            assert(c.last() == node);
            assert(c[0] == dep);
            assert forall|i: int| 0 <= i < c.len() - 1 implies graph_deps(g, #[trigger] c[i]).contains(c[i + 1]) by {
                assert(c[i] == st.stack[fp + i]);
                assert(c[i + 1] == st.stack[fp + i + 1]);
                assert(graph_deps(g, st.stack[fp + i]).contains(st.stack[fp + i + 1]));
            }
            assert(is_import_cycle(g, c));
            assert forall|i: int| 0 <= i < st2.cycles.len() implies is_import_cycle(g, #[trigger] st2.cycles[i]) by {
                if i < st.cycles.len() {
                    assert(st2.cycles[i] == st.cycles[i]);
                }
            }
        }
        lemma_dfs_deps_ok(g, node, k + 1, st2, fuel);
    }
}

proof fn lemma_dfs_roots_ok(g: Seq<Seq<usize>>, k: nat)
    ensures
        dfs_state_ok(g, dfs_roots(g, k)),
        dfs_roots(g, k).stack.len() == 0,
    decreases k,
{
    if k > 0 {
        lemma_dfs_roots_ok(g, (k - 1) as nat);
        let st = dfs_roots(g, (k - 1) as nat);
        if (k - 1) < st.visited.len() && !st.visited[k - 1] {
            lemma_dfs_visit_ok(g, (k - 1) as usize, st, (g.len() + 1) as nat);
        }
    } else {
        let st = dfs_roots(g, 0);
        assert(is_import_path(g, st.stack));
    }
}

proof fn lemma_push_contains(r: Seq<usize>, x: usize, v: usize)
    ensures
        r.push(x).contains(v) <==> (r.contains(v) || v == x),
{
    if r.push(x).contains(v) && v != x {
        let k = choose|k: int| 0 <= k < r.push(x).len() && r.push(x)[k] == v;
        assert(r[k] == v);
    }
    if r.contains(v) {
        let k = choose|k: int| 0 <= k < r.len() && r[k] == v;
        assert(r.push(x)[k] == v);
    }
    if v == x {
        assert(r.push(x)[r.len() as int] == v);
    }
}

/// Dropping repeats keeps every entry and adds none, and leaves no repeat.
pub proof fn lemma_distinct_deps(s: Seq<usize>)
    ensures
        forall|v: usize| #[trigger] distinct_deps(s).contains(v) <==> s.contains(v),
        distinct_deps(s).no_duplicates(),
    decreases s.len(),
{
    if s.len() > 0 {
        let init = s.drop_last();
        let x = s.last();
        lemma_distinct_deps(init);
        let r = distinct_deps(init);
        assert(s =~= init.push(x));
        assert forall|v: usize| #[trigger] distinct_deps(s).contains(v) <==> s.contains(v) by {
            lemma_push_contains(init, x, v);
            lemma_push_contains(r, x, v);
        }
        if !r.contains(x) {
            let t = r.push(x);
            assert forall|i: int, j: int| 0 <= i < t.len() && 0 <= j < t.len() && i != j implies t[i] != t[j] by {
                if i < r.len() && j < r.len() {
                    assert(t[i] == r[i] && t[j] == r[j]);
                } else if i < r.len() {
                    assert(t[i] == r[i]);
                    assert(r.contains(r[i]));
                } else {
                    assert(t[j] == r[j]);
                    assert(r.contains(r[j]));
                }
            }
        }
    }
}

/// The graph without repeated imports has the same edges as the graph.
pub proof fn lemma_distinct_graph_edges(g: Seq<Seq<usize>>)
    ensures
        distinct_graph(g).len() == g.len(),
        forall|u: usize, v: usize| #[trigger] graph_deps(distinct_graph(g), u).contains(v) <==> graph_deps(g, u).contains(v),
        forall|u: int| 0 <= u < g.len() ==> (#[trigger] distinct_graph(g)[u]).no_duplicates(),
{
    assert forall|u: usize, v: usize| #[trigger] graph_deps(distinct_graph(g), u).contains(v) <==> graph_deps(g, u).contains(v) by {
        if u < g.len() {
            lemma_distinct_deps(g[u as int]);
        }
    }
    assert forall|u: int| 0 <= u < g.len() implies (#[trigger] distinct_graph(g)[u]).no_duplicates() by {
        lemma_distinct_deps(g[u]);
    }
}

/// A cycle of one of two graphs with the same edges is a cycle of the other.
pub proof fn lemma_cycle_same_edges(g: Seq<Seq<usize>>, c: Seq<usize>)
    ensures
        is_import_cycle(distinct_graph(g), c) <==> is_import_cycle(g, c),
{
    lemma_distinct_graph_edges(g);
    let d = distinct_graph(g);
    if is_import_cycle(d, c) {
        assert forall|i: int| 0 <= i < c.len() - 1 implies graph_deps(g, #[trigger] c[i]).contains(c[i + 1]) by {
            assert(graph_deps(d, c[i]).contains(c[i + 1]));
        }
        assert(graph_deps(d, c.last()).contains(c[0]));
    }
    if is_import_cycle(g, c) {
        assert forall|i: int| 0 <= i < c.len() - 1 implies graph_deps(d, #[trigger] c[i]).contains(c[i + 1]) by {
            assert(graph_deps(g, c[i]).contains(c[i + 1]));
        }
        assert(graph_deps(g, c.last()).contains(c[0]));
    }
}

/// Every cycle that the search reports is a cycle of the import graph.
pub proof fn lemma_reported_cycles_are_cycles(g: Seq<Seq<usize>>)
    ensures
        forall|i: int| 0 <= i < import_cycles(g).len() ==> is_import_cycle(g, #[trigger] import_cycles(g)[i]),
{
    let d = distinct_graph(g);
    lemma_dfs_roots_ok(d, d.len());
    assert forall|i: int| 0 <= i < import_cycles(g).len() implies is_import_cycle(g, #[trigger] import_cycles(g)[i]) by {
        lemma_cycle_same_edges(g, import_cycles(g)[i]);
    }
}
} // verus!
