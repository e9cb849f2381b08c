use veric::ast::{
    EnumChild, EnumDef, ExportItem, GenericParamDef, ImportItem, ModuleDef, ModuleImport, Span, StructDef, TraitDeclDef,
    TraitName, TypeName, TypeParamName, Visibility,
};
use veric::index::Index;
use veric::loader::Loader;

fn span() -> Span {
    Span { start: 0, end: 0 }
}

fn module(name: &str) -> ModuleDef {
    ModuleDef {
        name: TypeName(name.to_string()),
        visibility: Visibility::Public,
        exports: vec![],
        imports: vec![],
        enums: vec![],
        structs: vec![],
        newtypes: vec![],
        consts: vec![],
        trait_decls: vec![],
        trait_impls: vec![],
        ffi: vec![],
        span: span(),
    }
}

fn enum_def(name: &str, generics: &[&str], children: Vec<EnumChild>) -> EnumDef {
    EnumDef {
        name: TypeName(name.to_string()),
        visibility: Visibility::Public,
        generic_params: generics
            .iter()
            .map(|g| GenericParamDef { name: TypeParamName(g.to_string()), bounds: vec![], default: None })
            .collect(),
        derives: vec![],
        children,
        span: span(),
    }
}

fn trait_decl(name: &str, generics: &[&str]) -> TraitDeclDef {
    TraitDeclDef {
        name: TraitName(name.to_string()),
        visibility: Visibility::Public,
        generic_params: generics
            .iter()
            .map(|g| GenericParamDef { name: TypeParamName(g.to_string()), bounds: vec![], default: None })
            .collect(),
        super_traits: vec![],
        signatures: vec![],
        associated_types: vec![],
        span: span(),
    }
}

fn importing(name: &str, source: &str, items: Vec<ImportItem>) -> ModuleDef {
    let mut m = module(name);
    m.imports.push(ModuleImport { source: TypeName(source.to_string()), names: items });
    m
}

#[test]
fn primitives_exist_everywhere() {
    let idx = Index::build(&[module("Test")]);
    assert!(idx.type_exists(0, "U8"));
    assert!(idx.type_exists(0, "String"));
    assert!(idx.type_exists(7, "Vec"));
    assert!(!idx.type_exists(0, "u8"));
}

#[test]
fn defined_and_nested_types_exist() {
    let mut m = module("Test");
    let inner = StructDef {
        name: TypeName("Inner".into()),
        visibility: Visibility::Public,
        generic_params: vec![],
        derives: vec![],
        children: vec![],
        span: span(),
    };
    m.enums.push(enum_def("Token", &[], vec![EnumChild::NestedStruct(inner)]));
    let idx = Index::build(&[m]);
    assert!(idx.type_exists(0, "Token"));
    assert!(idx.type_exists(0, "Inner"));
    assert!(idx.type_exists(0, "Token.Inner"));
    assert!(!idx.type_exists(0, "Inner.Token"));
    assert!(!idx.type_exists(0, "Other"));
    assert!(!idx.type_exists(1, "Token"));
}

#[test]
fn imported_names_are_visible() {
    let mut core = module("Core");
    core.enums.push(enum_def("Token", &[], vec![]));
    core.trait_decls.push(trait_decl("Show", &[]));
    core.exports.push(ExportItem::Type_(TypeName("Token".into())));
    let app = importing(
        "App",
        "Core",
        vec![ImportItem::Type_(TypeName("Token".into())), ImportItem::Trait(TraitName("Show".into()))],
    );
    let idx = Index::build(&[core, app]);
    assert!(idx.type_exists(1, "Token"));
    assert!(idx.trait_exists(1, "Show"));
    assert!(idx.trait_exists(0, "Show"));
    assert!(!idx.trait_exists(1, "Token"));
}

#[test]
fn imports_from_missing_module_bring_nothing() {
    let app = importing("App", "Nowhere", vec![ImportItem::Type_(TypeName("Token".into()))]);
    let idx = Index::build(&[app]);
    assert!(!idx.type_exists(0, "Token"));
}

#[test]
fn arities_of_primitives_and_definitions() {
    let mut m = module("Test");
    m.enums.push(enum_def("Pair", &["A", "B"], vec![]));
    m.trait_decls.push(trait_decl("Convert", &["T"]));
    let idx = Index::build(&[m]);
    assert_eq!(idx.type_arity(0, "Vec"), Some(1));
    assert_eq!(idx.type_arity(0, "Option"), Some(1));
    assert_eq!(idx.type_arity(0, "Result"), Some(2));
    assert_eq!(idx.type_arity(0, "U64"), Some(0));
    assert_eq!(idx.type_arity(0, "Pair"), Some(2));
    assert_eq!(idx.type_arity(0, "Convert"), Some(1));
    assert_eq!(idx.type_arity(0, "Unknown"), None);
    assert_eq!(idx.type_arity(3, "Pair"), None);
}

#[test]
fn two_module_cycle_found() {
    let a = importing("A", "B", vec![]);
    let b = importing("B", "A", vec![]);
    let idx = Index::build(&[a, b]);
    assert_eq!(idx.find_import_cycles(), vec![vec![0, 1]]);
}

#[test]
fn three_module_cycle_found() {
    let a = importing("A", "B", vec![]);
    let b = importing("B", "C", vec![]);
    let c = importing("C", "A", vec![]);
    let idx = Index::build(&[a, b, c]);
    assert_eq!(idx.find_import_cycles(), vec![vec![0, 1, 2]]);
}

#[test]
fn acyclic_imports_have_no_cycle() {
    let a = importing("A", "B", vec![]);
    let b = importing("B", "C", vec![]);
    let c = module("C");
    let idx = Index::build(&[a, b, c]);
    assert_eq!(idx.find_import_cycles(), Vec::<Vec<usize>>::new());
}

#[test]
fn later_module_of_one_name_wins() {
    let mut first = module("Dup");
    first.enums.push(enum_def("One", &[], vec![]));
    let mut second = module("Dup");
    second.enums.push(enum_def("Two", &[], vec![]));
    second.exports.push(ExportItem::Type_(TypeName("Two".into())));
    let user = importing("User", "Dup", vec![ImportItem::Type_(TypeName("Two".into()))]);
    let idx = Index::build(&[first, second, user]);
    assert!(idx.type_exists(2, "Two"));
}

#[test]
fn loader_failure_message() {
    assert_eq!(Loader::failure_message("unexpected end of input"), "deserialization failed: unexpected end of input");
}

#[test]
fn deeply_nested_types_have_scoped_names() {
    let mut m = module("Test");
    let delimiter = enum_def("Delimiter", &[], vec![EnumChild::NestedEnum(enum_def("Kind", &[], vec![]))]);
    m.enums.push(enum_def("Token", &[], vec![EnumChild::NestedEnum(delimiter)]));
    let idx = Index::build(&[m]);
    assert!(idx.type_exists(0, "Delimiter"));
    assert!(idx.type_exists(0, "Token.Delimiter"));
    assert!(idx.type_exists(0, "Kind"));
    assert!(idx.type_exists(0, "Token.Delimiter.Kind"));
    assert!(!idx.type_exists(0, "Token.Kind"));
}
