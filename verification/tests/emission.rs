use veric::ast::{
    EnumDef, ExportItem, GenericParamDef, ImportItem, ModuleDef, ModuleImport, NewtypeDef, Span, StructDef, TraitDeclDef,
    TraitImplDef, TraitName, TypeApplication, TypeExpr, TypeName, TypeParamName, Visibility,
};
use veric::emit::Emitter;
use veric::index::Index;
use veric::pipeline::verify_and_emit;
use veric::program::{GenericEntry, ImplEntry, TraitLocation, TypeKind, TypeLocation};

fn span() -> Span {
    Span { start: 0, end: 0 }
}

fn module(name: &str) -> ModuleDef {
    ModuleDef {
        name: TypeName(name.to_string()),
        visibility: Visibility::Public,
        exports: vec![],
        imports: vec![],
        enums: vec![],
        structs: vec![],
        newtypes: vec![],
        consts: vec![],
        trait_decls: vec![],
        trait_impls: vec![],
        ffi: vec![],
        span: span(),
    }
}

fn named(t: &str) -> TypeExpr {
    TypeExpr::Named(TypeName(t.to_string()))
}

fn enum_def(name: &str, generics: &[&str]) -> EnumDef {
    EnumDef {
        name: TypeName(name.to_string()),
        visibility: Visibility::Public,
        generic_params: generics
            .iter()
            .map(|g| GenericParamDef { name: TypeParamName(g.to_string()), bounds: vec![], default: None })
            .collect(),
        derives: vec![],
        children: vec![],
        span: span(),
    }
}

fn struct_def(name: &str) -> StructDef {
    StructDef {
        name: TypeName(name.to_string()),
        visibility: Visibility::Public,
        generic_params: vec![],
        derives: vec![],
        children: vec![],
        span: span(),
    }
}

fn trait_decl(name: &str) -> TraitDeclDef {
    TraitDeclDef {
        name: TraitName(name.to_string()),
        visibility: Visibility::Public,
        generic_params: vec![],
        super_traits: vec![],
        signatures: vec![],
        associated_types: vec![],
        span: span(),
    }
}

fn trait_impl(name: &str, typ: TypeExpr) -> TraitImplDef {
    TraitImplDef {
        trait_name: TraitName(name.to_string()),
        generic_params: vec![],
        typ,
        trait_args: vec![],
        methods: vec![],
        associated_types: vec![],
        span: span(),
    }
}

/// Core defines `Token<T>`, `Point` and the trait `Show`, and exports
/// them; App imports `Token` and `Show`, defines `Id` and implements
/// `Show` three times, once for a trait that does not exist.
fn sample_program() -> Vec<ModuleDef> {
    let mut core = module("Core");
    core.enums.push(enum_def("Token", &["T"]));
    core.structs.push(struct_def("Point"));
    core.trait_decls.push(trait_decl("Show"));
    core.exports.push(ExportItem::Type_(TypeName("Token".into())));
    core.exports.push(ExportItem::Type_(TypeName("Point".into())));
    core.exports.push(ExportItem::Trait(TraitName("Show".into())));
    let mut app = module("App");
    app.imports.push(ModuleImport {
        source: TypeName("Core".into()),
        names: vec![ImportItem::Type_(TypeName("Token".into())), ImportItem::Trait(TraitName("Show".into()))],
    });
    app.newtypes.push(NewtypeDef {
        name: TypeName("Id".into()),
        visibility: Visibility::Public,
        generic_params: vec![],
        wraps: named("U32"),
        span: span(),
    });
    app.trait_impls.push(trait_impl("Show", named("Id")));
    app.trait_impls.push(trait_impl(
        "Show",
        TypeExpr::Application(TypeApplication { constructor: TypeName("Token".into()), args: vec![named("U8")] }),
    ));
    app.trait_impls.push(trait_impl("Ghost", named("Id")));
    vec![core, app]
}

#[test]
fn emitted_modules_are_the_input() {
    let modules = sample_program();
    let idx = Index::build(&modules);
    let program = Emitter::emit(modules, &idx);
    let names: Vec<&str> = program.modules.iter().map(|m| m.name.0.as_str()).collect();
    assert_eq!(names, vec!["Core", "App"]);
}

#[test]
fn module_entries_by_name() {
    let modules = sample_program();
    let idx = Index::build(&modules);
    let program = Emitter::emit(modules, &idx);
    let entries: Vec<(&str, u32)> = program.resolution.modules.iter().map(|e| (e.name.as_str(), e.index)).collect();
    assert_eq!(entries, vec![("App", 1), ("Core", 0)]);
}

#[test]
fn type_entries_by_name() {
    let modules = sample_program();
    let idx = Index::build(&modules);
    let program = Emitter::emit(modules, &idx);
    let entries: Vec<(&str, TypeLocation)> =
        program.resolution.types.iter().map(|e| (e.name.as_str(), e.location)).collect();
    assert_eq!(
        entries,
        vec![
            ("Id", TypeLocation { module: 1, kind: TypeKind::Newtype, index: 0 }),
            ("Point", TypeLocation { module: 0, kind: TypeKind::Struct, index: 0 }),
            ("Token", TypeLocation { module: 0, kind: TypeKind::Enum, index: 0 }),
        ]
    );
}

#[test]
fn trait_entries_by_name() {
    let modules = sample_program();
    let idx = Index::build(&modules);
    let program = Emitter::emit(modules, &idx);
    let entries: Vec<(&str, TraitLocation)> =
        program.resolution.traits.iter().map(|e| (e.name.as_str(), e.location)).collect();
    assert_eq!(entries, vec![("Show", TraitLocation { module: 0, decl_index: 0 })]);
}

#[test]
fn impl_entries_resolve_trait_and_type() {
    let modules = sample_program();
    let idx = Index::build(&modules);
    let program = Emitter::emit(modules, &idx);
    assert_eq!(
        program.resolution.impls,
        vec![
            ImplEntry {
                trait_name: TraitLocation { module: 0, decl_index: 0 },
                typ: TypeLocation { module: 1, kind: TypeKind::Newtype, index: 0 },
                impl_module: 1,
                impl_index: 0,
            },
            ImplEntry {
                trait_name: TraitLocation { module: 0, decl_index: 0 },
                typ: TypeLocation { module: 0, kind: TypeKind::Enum, index: 0 },
                impl_module: 1,
                impl_index: 1,
            },
        ]
    );
}

#[test]
fn generic_entries_list_generic_types() {
    let modules = sample_program();
    let idx = Index::build(&modules);
    let program = Emitter::emit(modules, &idx);
    assert_eq!(
        program.resolution.generics,
        vec![GenericEntry { location: TypeLocation { module: 0, kind: TypeKind::Enum, index: 0 }, arity: 1 }]
    );
}

#[test]
fn import_resolutions_cover_types_and_traits() {
    let modules = sample_program();
    let idx = Index::build(&modules);
    let program = Emitter::emit(modules, &idx);
    assert_eq!(program.resolution.imports.len(), 1);
    let group = &program.resolution.imports[0];
    assert_eq!(group.source_module, 1);
    let resolved: Vec<(&str, TypeLocation)> = group.resolved.iter().map(|r| (r.name.as_str(), r.location)).collect();
    assert_eq!(
        resolved,
        vec![
            ("Token", TypeLocation { module: 0, kind: TypeKind::Enum, index: 0 }),
            ("Show", TypeLocation { module: 0, kind: TypeKind::Enum, index: 0 }),
        ]
    );
}

#[test]
fn names_sort_by_character_order() {
    let mut m = module("Test");
    m.enums.push(enum_def("b", &[]));
    m.enums.push(enum_def("a", &[]));
    m.enums.push(enum_def("B", &[]));
    m.enums.push(enum_def("ab", &[]));
    let modules = vec![m];
    let idx = Index::build(&modules);
    let program = Emitter::emit(modules, &idx);
    let names: Vec<&str> = program.resolution.types.iter().map(|e| e.name.as_str()).collect();
    assert_eq!(names, vec!["B", "a", "ab", "b"]);
}

#[test]
fn same_type_name_in_two_modules_listed_by_module() {
    let mut a = module("A");
    a.structs.push(struct_def("Point"));
    let mut b = module("B");
    b.enums.push(enum_def("Point", &["T"]));
    let modules = vec![a, b];
    let idx = Index::build(&modules);
    let program = Emitter::emit(modules, &idx);
    let entries: Vec<(&str, u32)> =
        program.resolution.types.iter().map(|e| (e.name.as_str(), e.location.module)).collect();
    assert_eq!(entries, vec![("Point", 0), ("Point", 1)]);
}

#[test]
fn verify_and_emit_accepts_clean_program() {
    let mut core = module("Core");
    core.enums.push(enum_def("Token", &[]));
    core.exports.push(ExportItem::Type_(TypeName("Token".into())));
    let mut parser = module("Parser");
    parser.imports.push(ModuleImport { source: TypeName("Core".into()), names: vec![ImportItem::Type_(TypeName("Token".into()))] });
    match verify_and_emit(vec![core, parser]) {
        Ok(program) => {
            assert_eq!(program.modules.len(), 2);
            assert_eq!(program.resolution.modules.len(), 2);
            assert_eq!(program.resolution.imports.len(), 1);
        },
        Err(errors) => panic!("errors: {:?}", errors),
    }
}

#[test]
fn verify_and_emit_refuses_broken_program() {
    let mut m = module("Test");
    m.exports.push(ExportItem::Type_(TypeName("Missing".into())));
    match verify_and_emit(vec![m]) {
        Ok(_) => panic!("a program with a problem was emitted"),
        Err(errors) => {
            assert_eq!(errors.len(), 1);
            assert_eq!(errors[0].module, "Test");
            assert_eq!(errors[0].message, "exports type 'Missing' but it is not defined");
        },
    }
}

#[test]
fn impl_trait_and_type_found_where_imported_from() {
    // Both A and B declare `Show` and define `Point`; C imports them from B.
    let mut a = module("A");
    a.trait_decls.push(trait_decl("Show"));
    a.structs.push(struct_def("Point"));
    let mut b = module("B");
    b.enums.push(enum_def("Other", &[]));
    b.structs.push(struct_def("Point"));
    b.trait_decls.push(trait_decl("Dummy"));
    b.trait_decls.push(trait_decl("Show"));
    let mut c = module("C");
    c.imports.push(ModuleImport {
        source: TypeName("B".into()),
        names: vec![ImportItem::Trait(TraitName("Show".into())), ImportItem::Type_(TypeName("Point".into()))],
    });
    c.trait_impls.push(trait_impl("Show", named("Point")));
    let modules = vec![a, b, c];
    let idx = Index::build(&modules);
    let program = Emitter::emit(modules, &idx);
    assert_eq!(
        program.resolution.impls,
        vec![ImplEntry {
            trait_name: TraitLocation { module: 1, decl_index: 1 },
            typ: TypeLocation { module: 1, kind: TypeKind::Struct, index: 0 },
            impl_module: 2,
            impl_index: 0,
        }]
    );
}

#[test]
fn nested_types_listed_under_scoped_names() {
    let mut m = module("Test");
    let mut outer = enum_def("Token", &[]);
    outer.children.push(veric::ast::EnumChild::NestedStruct(struct_def("Span")));
    m.enums.push(outer);
    let modules = vec![m];
    let idx = Index::build(&modules);
    let program = Emitter::emit(modules, &idx);
    let names: Vec<&str> = program.resolution.types.iter().map(|e| e.name.as_str()).collect();
    assert_eq!(names, vec!["Span", "Token", "Token.Span"]);
}
