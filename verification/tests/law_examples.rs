use veric::ast::{
    ConstDef, EnumDef, ExportItem, FieldName, GenericParamDef, ImportItem, LiteralValue, MethodName, MethodSig, ModuleDef,
    ModuleImport, NewtypeDef, Param, ParamName, Span, StructChild, StructDef, TraitDeclDef, TraitName, TypeApplication, TypeExpr,
    TypeName, TypeParamName, Visibility,
};
use veric::emit::Emitter;
use veric::index::Index;
use veric::program::TypeKind;
use veric::verify::Verifier;

fn span() -> Span {
    Span { start: 0, end: 0 }
}

fn module(name: &str) -> ModuleDef {
    ModuleDef {
        name: TypeName(name.to_string()),
        visibility: Visibility::Public,
        exports: vec![],
        imports: vec![],
        enums: vec![],
        structs: vec![],
        newtypes: vec![],
        consts: vec![],
        trait_decls: vec![],
        trait_impls: vec![],
        ffi: vec![],
        span: span(),
    }
}

fn named(t: &str) -> TypeExpr {
    TypeExpr::Named(TypeName(t.to_string()))
}

fn enum_def(name: &str) -> EnumDef {
    EnumDef {
        name: TypeName(name.to_string()),
        visibility: Visibility::Public,
        generic_params: vec![],
        derives: vec![],
        children: vec![],
        span: span(),
    }
}

fn struct_with_field(name: &str, typ: TypeExpr) -> StructDef {
    StructDef {
        name: TypeName(name.to_string()),
        visibility: Visibility::Public,
        generic_params: vec![],
        derives: vec![],
        children: vec![StructChild::TypedField { name: FieldName("Value".into()), visibility: Visibility::Public, typ, span: span() }],
        span: span(),
    }
}

fn messages(modules: &[ModuleDef]) -> Vec<String> {
    let idx = Index::build(modules);
    Verifier::verify(modules, &idx).into_iter().map(|e| e.message).collect()
}

#[test]
fn every_tier_reported_in_order() {
    let mut m = module("Test");
    m.enums.push(enum_def("Dup"));
    m.enums.push(enum_def("Dup"));
    m.exports.push(ExportItem::Type_(TypeName("Missing".into())));
    m.structs.push(struct_with_field("Holder", named("Nowhere")));
    m.consts.push(ConstDef {
        name: TypeName("Big".into()),
        visibility: Visibility::Public,
        typ: named("U8"),
        value: LiteralValue::Int(256),
        span: span(),
    });
    assert_eq!(
        messages(&[m]),
        vec![
            "exports type 'Missing' but it is not defined".to_string(),
            "type 'Nowhere' not found".to_string(),
            "duplicate type name 'Dup'".to_string(),
            "const 'Big': value 256 out of range for 'U8'".to_string(),
        ]
    );
}

#[test]
fn clean_program_links_and_resolves() {
    let mut core = module("Core");
    core.enums.push(enum_def("Token"));
    core.exports.push(ExportItem::Type_(TypeName("Token".into())));
    let mut parser = module("Parser");
    parser.imports.push(ModuleImport { source: TypeName("Core".into()), names: vec![ImportItem::Type_(TypeName("Token".into()))] });
    parser.structs.push(struct_with_field("Node", named("Token")));
    let modules = vec![core, parser];
    assert!(messages(&modules).is_empty());
    let idx = Index::build(&modules);
    assert!(idx.find_import_cycles().is_empty());
    assert!(idx.type_exists(1, "Token"));
}

#[test]
fn reported_cycle_follows_imports() {
    let mut a = module("A");
    a.imports.push(ModuleImport { source: TypeName("B".into()), names: vec![] });
    let mut b = module("B");
    b.imports.push(ModuleImport { source: TypeName("C".into()), names: vec![] });
    let mut c = module("C");
    c.imports.push(ModuleImport { source: TypeName("A".into()), names: vec![] });
    let modules = vec![a, b, c];
    let idx = Index::build(&modules);
    let cycles = idx.find_import_cycles();
    assert_eq!(cycles.len(), 1);
    let cycle = &cycles[0];
    for k in 0..cycle.len() {
        let from = &modules[cycle[k]];
        let to = &modules[cycle[(k + 1) % cycle.len()]];
        assert!(from.imports.iter().any(|imp| imp.source.0 == to.name.0));
    }
}

#[test]
fn table_points_at_definitions() {
    let mut m = module("Test");
    m.enums.push(enum_def("Color"));
    m.enums.push(enum_def("Shape"));
    m.structs.push(struct_with_field("Point", named("U8")));
    m.newtypes.push(NewtypeDef { name: TypeName("Id".into()), visibility: Visibility::Public, generic_params: vec![], wraps: named("U32"), span: span() });
    let modules = vec![m];
    let idx = Index::build(&modules);
    let program = Emitter::emit(modules, &idx);
    assert_eq!(program.resolution.types.len(), 4);
    for entry in &program.resolution.types {
        let m = &program.modules[entry.location.module as usize];
        let i = entry.location.index as usize;
        let defined = match entry.location.kind {
            TypeKind::Enum => &m.enums[i].name.0,
            TypeKind::Struct => &m.structs[i].name.0,
            TypeKind::Newtype => &m.newtypes[i].name.0,
            TypeKind::Const => &m.consts[i].name.0,
        };
        assert_eq!(defined, &entry.name);
    }
}

#[test]
fn clean_program_consts_fit() {
    let mut m = module("Test");
    m.consts.push(ConstDef { name: TypeName("Max".into()), visibility: Visibility::Public, typ: named("U16"), value: LiteralValue::Int(65535), span: span() });
    m.consts.push(ConstDef { name: TypeName("Greeting".into()), visibility: Visibility::Public, typ: named("String"), value: LiteralValue::Str("hello".into()), span: span() });
    assert!(messages(&[m]).is_empty());
}

#[test]
fn linking_program_passes_module_tier() {
    let mut base = module("Base");
    base.enums.push(enum_def("Token"));
    base.exports.push(ExportItem::Type_(TypeName("Token".into())));
    let mut left = module("Left");
    left.imports.push(ModuleImport { source: TypeName("Base".into()), names: vec![ImportItem::Type_(TypeName("Token".into()))] });
    left.structs.push(struct_with_field("Lhs", named("Token")));
    left.exports.push(ExportItem::Type_(TypeName("Lhs".into())));
    let mut right = module("Right");
    right.imports.push(ModuleImport { source: TypeName("Base".into()), names: vec![ImportItem::Type_(TypeName("Token".into()))] });
    right.structs.push(struct_with_field("Rhs", named("Token")));
    right.exports.push(ExportItem::Type_(TypeName("Rhs".into())));
    let mut top = module("Top");
    top.imports.push(ModuleImport { source: TypeName("Left".into()), names: vec![ImportItem::Type_(TypeName("Lhs".into()))] });
    top.imports.push(ModuleImport { source: TypeName("Right".into()), names: vec![ImportItem::Type_(TypeName("Rhs".into()))] });
    let modules = vec![base, left, right, top];
    let idx = Index::build(&modules);
    assert!(idx.find_import_cycles().is_empty());
    assert!(messages(&modules).is_empty());
}

#[test]
fn reported_cycles_are_simple_and_distinct() {
    let mut a = module("A");
    a.imports.push(ModuleImport { source: TypeName("B".into()), names: vec![] });
    a.imports.push(ModuleImport { source: TypeName("C".into()), names: vec![] });
    let mut b = module("B");
    b.imports.push(ModuleImport { source: TypeName("A".into()), names: vec![] });
    let mut c = module("C");
    c.imports.push(ModuleImport { source: TypeName("A".into()), names: vec![] });
    let modules = vec![a, b, c];
    let cycles = Index::build(&modules).find_import_cycles();
    assert!(!cycles.is_empty());
    for (k, cycle) in cycles.iter().enumerate() {
        for i in 0..cycle.len() {
            for j in (i + 1)..cycle.len() {
                assert_ne!(cycle[i], cycle[j]);
            }
        }
        for other in &cycles[k + 1..] {
            assert_ne!(cycle, other);
        }
    }
}

#[test]
fn emitted_table_is_the_same_each_time() {
    let program = || {
        let mut m = module("Test");
        m.enums.push(enum_def("Color"));
        m.structs.push(struct_with_field("Point", named("Color")));
        vec![m]
    };
    let idx = Index::build(&program());
    let first = Emitter::emit(program(), &idx);
    let second = Emitter::emit(program(), &idx);
    assert_eq!(format!("{:?}", first.resolution), format!("{:?}", second.resolution));
}

fn param(name: &str) -> GenericParamDef {
    GenericParamDef { name: TypeParamName(name.to_string()), bounds: vec![], default: None }
}

fn typed_field(name: &str, typ: TypeExpr) -> StructChild {
    StructChild::TypedField { name: FieldName(name.to_string()), visibility: Visibility::Public, typ, span: span() }
}

#[test]
fn clean_nested_definitions_resolve() {
    let mut m = module("Test");
    m.enums.push(enum_def("Token"));
    let inner = StructDef {
        name: TypeName("Inner".into()),
        visibility: Visibility::Public,
        generic_params: vec![param("U")],
        derives: vec![],
        children: vec![
            typed_field("Items", TypeExpr::Application(TypeApplication { constructor: TypeName("Vec".into()), args: vec![named("U")] })),
            typed_field("Back", named("T")),
            StructChild::SelfTypedField { name: TypeName("Token".into()), visibility: Visibility::Public, span: span() },
        ],
        span: span(),
    };
    m.structs.push(StructDef {
        name: TypeName("Outer".into()),
        visibility: Visibility::Public,
        generic_params: vec![param("T")],
        derives: vec![],
        children: vec![StructChild::SelfTypedField { name: TypeName("Token".into()), visibility: Visibility::Public, span: span() }, StructChild::NestedStruct(inner)],
        span: span(),
    });
    assert!(messages(&[m]).is_empty());

    let mut bad = module("Test");
    let deep = StructDef {
        name: TypeName("Deep".into()),
        visibility: Visibility::Public,
        generic_params: vec![],
        derives: vec![],
        children: vec![typed_field("Lost", named("Nowhere"))],
        span: span(),
    };
    bad.structs.push(StructDef {
        name: TypeName("Shell".into()),
        visibility: Visibility::Public,
        generic_params: vec![],
        derives: vec![],
        children: vec![StructChild::NestedStruct(deep)],
        span: span(),
    });
    assert_eq!(messages(&[bad]), vec!["type 'Nowhere' not found".to_string()]);
}

#[test]
fn clean_program_keeps_private_types_inside() {
    let mut m = module("Test");
    let mut hidden = struct_with_field("Hidden", named("U8"));
    hidden.visibility = Visibility::Private;
    m.structs.push(hidden);
    let mut holder = struct_with_field("Holder", named("Hidden"));
    holder.visibility = Visibility::Private;
    m.structs.push(holder);
    m.structs.push(struct_with_field("Shown", named("U8")));
    m.exports.push(ExportItem::Type_(TypeName("Shown".into())));
    assert!(messages(&[m]).is_empty());
}

#[test]
fn clean_member_generics_unique() {
    let mut m = module("Test");
    m.trait_decls.push(TraitDeclDef {
        name: TraitName("Convert".into()),
        visibility: Visibility::Public,
        generic_params: vec![param("A"), param("B")],
        super_traits: vec![],
        signatures: vec![MethodSig {
            name: MethodName("convert".into()),
            generic_params: vec![param("C")],
            params: vec![Param::Named { name: ParamName("value".into()), typ: named("A") }],
            return_type: Some(named("B")),
        }],
        associated_types: vec![],
        span: span(),
    });
    assert!(messages(&[m]).is_empty());
}

#[test]
fn repeated_import_reports_cycle_once() {
    let mut a = module("A");
    a.imports.push(ModuleImport { source: TypeName("B".into()), names: vec![] });
    let mut b = module("B");
    b.imports.push(ModuleImport { source: TypeName("A".into()), names: vec![] });
    let modules = vec![a, b];
    let mut idx = Index::build(&modules);
    idx.import_graph[0].push(1);
    idx.import_graph[1].push(0);
    let cycles = idx.find_import_cycles();
    assert_eq!(cycles, vec![vec![0, 1]]);
}
