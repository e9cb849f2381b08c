use veric::ast::{
    AssociatedTypeDef, ConstDef, EnumChild, EnumDef, ExportItem, FieldName, GenericParamDef, ImportItem, LiteralValue,
    MethodDef, MethodName, MethodSig, ModuleDef, ModuleImport, Param, ParamName, Span, StructChild, StructDef, TraitBound,
    TraitDeclDef, TraitImplDef, TraitName, TypeApplication, TypeExpr, TypeName, TypeParamName, Visibility,
};
use veric::index::Index;
use veric::verify::Verifier;

fn span() -> Span {
    Span { start: 0, end: 0 }
}

fn module(name: &str) -> ModuleDef {
    ModuleDef {
        name: TypeName(name.to_string()),
        visibility: Visibility::Public,
        exports: vec![],
        imports: vec![],
        enums: vec![],
        structs: vec![],
        newtypes: vec![],
        consts: vec![],
        trait_decls: vec![],
        trait_impls: vec![],
        ffi: vec![],
        span: span(),
    }
}

fn named(t: &str) -> TypeExpr {
    TypeExpr::Named(TypeName(t.to_string()))
}

fn enum_def(name: &str, generics: &[&str], children: Vec<EnumChild>) -> EnumDef {
    EnumDef {
        name: TypeName(name.to_string()),
        visibility: Visibility::Public,
        generic_params: generics
            .iter()
            .map(|g| GenericParamDef { name: TypeParamName(g.to_string()), bounds: vec![], default: None })
            .collect(),
        derives: vec![],
        children,
        span: span(),
    }
}

fn struct_with_field(name: &str, typ: TypeExpr) -> StructDef {
    StructDef {
        name: TypeName(name.to_string()),
        visibility: Visibility::Public,
        generic_params: vec![],
        derives: vec![],
        children: vec![StructChild::TypedField {
            name: FieldName("Value".to_string()),
            visibility: Visibility::Public,
            typ,
            span: span(),
        }],
        span: span(),
    }
}

fn sig(name: &str, params: Vec<Param>, ret: Option<TypeExpr>) -> MethodSig {
    MethodSig { name: MethodName(name.to_string()), generic_params: vec![], params, return_type: ret }
}

fn method(name: &str, params: Vec<Param>, ret: Option<TypeExpr>) -> MethodDef {
    MethodDef { name: MethodName(name.to_string()), generic_params: vec![], params, return_type: ret }
}

fn trait_decl(name: &str, signatures: Vec<MethodSig>, associated: Vec<AssociatedTypeDef>) -> TraitDeclDef {
    TraitDeclDef {
        name: TraitName(name.to_string()),
        visibility: Visibility::Public,
        generic_params: vec![],
        super_traits: vec![],
        signatures,
        associated_types: associated,
        span: span(),
    }
}

fn trait_impl(name: &str, methods: Vec<MethodDef>) -> TraitImplDef {
    TraitImplDef {
        trait_name: TraitName(name.to_string()),
        generic_params: vec![],
        typ: named("U8"),
        trait_args: vec![],
        methods,
        associated_types: vec![],
        span: span(),
    }
}

fn constant(name: &str, typ: &str, value: LiteralValue) -> ConstDef {
    ConstDef { name: TypeName(name.to_string()), visibility: Visibility::Public, typ: named(typ), value, span: span() }
}

fn import(source: &str, names: Vec<ImportItem>) -> ModuleImport {
    ModuleImport { source: TypeName(source.to_string()), names }
}

fn problems(modules: Vec<ModuleDef>) -> Vec<(String, String)> {
    let idx = Index::build(&modules);
    Verifier::verify(&modules, &idx).into_iter().map(|e| (e.module, e.message)).collect()
}

fn one(module: &str, message: &str) -> Vec<(String, String)> {
    vec![(module.to_string(), message.to_string())]
}

/// A module with one trait `Show` declaring `show(&self)`, and an
/// implementation of it for `U8` with the given methods.
fn show_program(decl_sig: MethodSig, methods: Vec<MethodDef>) -> Vec<ModuleDef> {
    let mut m = module("Test");
    m.trait_decls.push(trait_decl("Show", vec![decl_sig], vec![]));
    m.trait_impls.push(trait_impl("Show", methods));
    vec![m]
}

#[test]
fn exports_missing_type_message() {
    let mut m = module("Test");
    m.exports.push(ExportItem::Type_(TypeName("Missing".into())));
    assert_eq!(problems(vec![m]), one("Test", "exports type 'Missing' but it is not defined"));
}

#[test]
fn exports_missing_trait_message() {
    let mut m = module("Test");
    m.exports.push(ExportItem::Trait(TraitName("Show".into())));
    assert_eq!(problems(vec![m]), one("Test", "exports trait 'Show' but it is not defined"));
}

#[test]
fn missing_module_message() {
    let mut m = module("Test");
    m.imports.push(import("Nonexistent", vec![ImportItem::Type_(TypeName("Foo".into()))]));
    assert_eq!(problems(vec![m]), one("Test", "imports from module 'Nonexistent' which does not exist"));
}

#[test]
fn unexported_type_message() {
    let mut core = module("Core");
    core.enums.push(enum_def("Token", &[], vec![]));
    let mut parser = module("Parser");
    parser.imports.push(import("Core", vec![ImportItem::Type_(TypeName("Token".into()))]));
    assert_eq!(problems(vec![core, parser]), one("Parser", "imports type 'Token' from 'Core' but it is not exported"));
}

#[test]
fn unexported_trait_message() {
    let mut core = module("Core");
    core.trait_decls.push(trait_decl("Show", vec![], vec![]));
    let mut parser = module("Parser");
    parser.imports.push(import("Core", vec![ImportItem::Trait(TraitName("Show".into()))]));
    assert_eq!(problems(vec![core, parser]), one("Parser", "imports trait 'Show' from 'Core' but it is not exported"));
}

#[test]
fn trait_imported_as_type_is_not_exported() {
    let mut core = module("Core");
    core.trait_decls.push(trait_decl("Show", vec![], vec![]));
    core.exports.push(ExportItem::Trait(TraitName("Show".into())));
    let mut parser = module("Parser");
    parser.imports.push(import("Core", vec![ImportItem::Type_(TypeName("Show".into()))]));
    assert_eq!(problems(vec![core, parser]), one("Parser", "imports type 'Show' from 'Core' but it is not exported"));
}

#[test]
fn name_imported_twice_message() {
    let mut core = module("Core");
    core.enums.push(enum_def("Token", &[], vec![]));
    core.exports.push(ExportItem::Type_(TypeName("Token".into())));
    let mut util = module("Util");
    util.enums.push(enum_def("Token", &[], vec![]));
    util.exports.push(ExportItem::Type_(TypeName("Token".into())));
    let mut parser = module("Parser");
    parser.imports.push(import("Core", vec![ImportItem::Type_(TypeName("Token".into()))]));
    parser.imports.push(import("Util", vec![ImportItem::Type_(TypeName("Token".into()))]));
    assert_eq!(problems(vec![core, util, parser]), one("Parser", "name 'Token' imported more than once"));
}

#[test]
fn circular_import_message() {
    let mut a = module("A");
    a.enums.push(enum_def("X", &[], vec![]));
    a.exports.push(ExportItem::Type_(TypeName("X".into())));
    a.imports.push(import("B", vec![ImportItem::Type_(TypeName("Y".into()))]));
    let mut b = module("B");
    b.enums.push(enum_def("Y", &[], vec![]));
    b.exports.push(ExportItem::Type_(TypeName("Y".into())));
    b.imports.push(import("A", vec![ImportItem::Type_(TypeName("X".into()))]));
    assert_eq!(problems(vec![a, b]), one("A", "circular import: A \u{2192} B"));
}

#[test]
fn self_import_is_circular() {
    let mut a = module("A");
    a.enums.push(enum_def("X", &[], vec![]));
    a.exports.push(ExportItem::Type_(TypeName("X".into())));
    a.imports.push(import("A", vec![ImportItem::Type_(TypeName("X".into()))]));
    assert_eq!(problems(vec![a]), one("A", "circular import: A"));
}

#[test]
fn unknown_impl_trait_message() {
    let mut m = module("Test");
    m.trait_impls.push(trait_impl("Show", vec![]));
    assert_eq!(problems(vec![m]), one("Test", "implements trait 'Show' which does not exist"));
}

#[test]
fn self_typed_field_message() {
    let mut m = module("Test");
    m.structs.push(StructDef {
        name: TypeName("Holder".into()),
        visibility: Visibility::Public,
        generic_params: vec![],
        derives: vec![],
        children: vec![StructChild::SelfTypedField { name: TypeName("Missing".into()), visibility: Visibility::Public, span: span() }],
        span: span(),
    });
    assert_eq!(problems(vec![m]), one("Test", "self-typed field 'Missing': type 'Missing' not found"));
}

#[test]
fn unknown_type_message() {
    let mut m = module("Test");
    m.structs.push(struct_with_field("Point", named("NonexistentType")));
    assert_eq!(problems(vec![m]), one("Test", "type 'NonexistentType' not found"));
}

#[test]
fn unknown_constructor_message() {
    let mut m = module("Test");
    let app = TypeApplication { constructor: TypeName("Mystery".into()), args: vec![named("U8")] };
    m.structs.push(struct_with_field("Point", TypeExpr::Application(app)));
    assert_eq!(problems(vec![m]), one("Test", "type constructor 'Mystery' not found"));
}

#[test]
fn unknown_param_message() {
    let mut m = module("Test");
    m.structs.push(struct_with_field("Point", TypeExpr::Param(TypeParamName("T".into()))));
    assert_eq!(problems(vec![m]), one("Test", "type parameter 'T' not in scope"));
}

#[test]
fn param_in_scope_is_accepted() {
    let mut m = module("Test");
    let mut s = struct_with_field("Point", TypeExpr::Param(TypeParamName("T".into())));
    s.generic_params.push(GenericParamDef { name: TypeParamName("T".into()), bounds: vec![], default: None });
    m.structs.push(s);
    assert_eq!(problems(vec![m]), vec![]);
}

#[test]
fn unknown_bound_message() {
    let mut m = module("Test");
    m.structs.push(struct_with_field("Point", TypeExpr::BoundedParam { bounds: vec![TraitName("Nope".into())] }));
    assert_eq!(problems(vec![m]), one("Test", "bound 'Nope' not found"));
}

#[test]
fn unknown_instance_message() {
    let mut m = module("Test");
    let app = TypeApplication { constructor: TypeName("Ghost".into()), args: vec![] };
    m.structs.push(struct_with_field("Point", TypeExpr::InstanceRef(app)));
    assert_eq!(problems(vec![m]), one("Test", "instance type 'Ghost' not found"));
}

#[test]
fn unknown_trait_bound_message() {
    let mut m = module("Test");
    let bound = TraitBound { trait_name: TraitName("Nope".into()), args: vec![] };
    m.structs.push(struct_with_field("Point", TypeExpr::DynTrait { bounds: vec![bound] }));
    assert_eq!(problems(vec![m]), one("Test", "trait 'Nope' not found"));
}

#[test]
fn arity_message() {
    let mut m = module("Test");
    let app = TypeApplication { constructor: TypeName("Vec".into()), args: vec![] };
    m.structs.push(struct_with_field("Point", TypeExpr::Application(app)));
    assert_eq!(problems(vec![m]), one("Test", "'Vec' expects 1 type arguments, got 0"));
}

#[test]
fn arity_of_own_generic_type() {
    let mut m = module("Test");
    m.enums.push(enum_def("Pair", &["A", "B"], vec![]));
    let app = TypeApplication { constructor: TypeName("Pair".into()), args: vec![named("U8")] };
    m.structs.push(struct_with_field("Point", TypeExpr::Application(app)));
    assert_eq!(problems(vec![m]), one("Test", "'Pair' expects 2 type arguments, got 1"));
}

#[test]
fn missing_method_message() {
    let program = show_program(sig("show", vec![Param::BorrowSelf], None), vec![]);
    assert_eq!(problems(program), one("Test", "impl 'Show': missing method 'show'"));
}

#[test]
fn extra_method_message() {
    let program = show_program(
        sig("show", vec![Param::BorrowSelf], None),
        vec![method("show", vec![Param::BorrowSelf], None), method("extra", vec![Param::BorrowSelf], None)],
    );
    assert_eq!(problems(program), one("Test", "impl 'Show': method 'extra' not in declaration"));
}

#[test]
fn param_count_message() {
    let extra = Param::Named { name: ParamName("x".into()), typ: named("U8") };
    let program = show_program(
        sig("show", vec![Param::BorrowSelf], None),
        vec![method("show", vec![Param::BorrowSelf, extra], None)],
    );
    assert_eq!(problems(program), one("Test", "impl 'Show' method 'show': 2 params, declaration has 1"));
}

#[test]
fn return_expected_message() {
    let program = show_program(
        sig("show", vec![Param::BorrowSelf], Some(named("U8"))),
        vec![method("show", vec![Param::BorrowSelf], None)],
    );
    assert_eq!(problems(program), one("Test", "impl 'Show' method 'show': return type expected but missing"));
}

#[test]
fn return_unexpected_message() {
    let program = show_program(
        sig("show", vec![Param::BorrowSelf], None),
        vec![method("show", vec![Param::BorrowSelf], Some(named("U8")))],
    );
    assert_eq!(problems(program), one("Test", "impl 'Show' method 'show': return type present but not in declaration"));
}

#[test]
fn self_kind_message() {
    let program = show_program(
        sig("show", vec![Param::BorrowSelf], None),
        vec![method("show", vec![Param::OwnedSelf], None)],
    );
    assert_eq!(problems(program), one("Test", "impl 'Show' method 'show': self parameter kind mismatch"));
}

#[test]
fn missing_associated_type_message() {
    let mut m = module("Test");
    let output = AssociatedTypeDef { name: TypeName("Output".into()), default: None };
    m.trait_decls.push(trait_decl("Show", vec![], vec![output]));
    m.trait_impls.push(trait_impl("Show", vec![]));
    assert_eq!(problems(vec![m]), one("Test", "impl 'Show': missing associated type 'Output'"));
}

#[test]
fn associated_type_with_default_may_be_left_out() {
    let mut m = module("Test");
    let output = AssociatedTypeDef { name: TypeName("Output".into()), default: Some(named("U8")) };
    m.trait_decls.push(trait_decl("Show", vec![], vec![output]));
    m.trait_impls.push(trait_impl("Show", vec![]));
    assert_eq!(problems(vec![m]), vec![]);
}

#[test]
fn imported_trait_declaration_is_checked() {
    let mut core = module("Core");
    core.trait_decls.push(trait_decl("Show", vec![sig("show", vec![Param::BorrowSelf], None)], vec![]));
    core.exports.push(ExportItem::Trait(TraitName("Show".into())));
    let mut app = module("App");
    app.imports.push(import("Core", vec![ImportItem::Trait(TraitName("Show".into()))]));
    app.trait_impls.push(trait_impl("Show", vec![]));
    assert_eq!(problems(vec![core, app]), one("App", "impl 'Show': missing method 'show'"));
}

#[test]
fn duplicate_type_message() {
    let mut m = module("Test");
    m.enums.push(enum_def("Element", &[], vec![]));
    m.structs.push(StructDef {
        name: TypeName("Element".into()),
        visibility: Visibility::Public,
        generic_params: vec![],
        derives: vec![],
        children: vec![],
        span: span(),
    });
    assert_eq!(problems(vec![m]), one("Test", "duplicate type name 'Element'"));
}

#[test]
fn duplicate_const_message() {
    let mut m = module("Test");
    m.consts.push(constant("Pi", "U32", LiteralValue::Int(3)));
    m.consts.push(constant("Pi", "U32", LiteralValue::Int(4)));
    assert_eq!(problems(vec![m]), one("Test", "duplicate name 'Pi'"));
}

#[test]
fn duplicate_trait_message() {
    let mut m = module("Test");
    m.trait_decls.push(trait_decl("Show", vec![], vec![]));
    m.trait_decls.push(trait_decl("Show", vec![], vec![]));
    assert_eq!(problems(vec![m]), one("Test", "duplicate trait name 'Show'"));
}

#[test]
fn nested_collision_message() {
    let mut m = module("Test");
    m.enums.push(enum_def("Alpha", &[], vec![]));
    m.enums.push(enum_def("Beta", &[], vec![EnumChild::NestedEnum(enum_def("Alpha", &[], vec![]))]));
    assert_eq!(problems(vec![m]), one("Test", "nested type 'Alpha' collides with top-level name"));
}

#[test]
fn duplicate_generic_message() {
    let mut m = module("Test");
    m.enums.push(enum_def("Wrapper", &["T", "T"], vec![]));
    assert_eq!(problems(vec![m]), one("Test", "duplicate generic param 'T' in 'Wrapper'"));
}

#[test]
fn incompatible_float_message() {
    let mut m = module("Test");
    m.consts.push(constant("Pi", "U32", LiteralValue::Float(format!("{:?}", 3.14f64))));
    assert_eq!(problems(vec![m]), one("Test", "const 'Pi': type 'U32' incompatible with value Float(3.14)"));
}

#[test]
fn incompatible_str_message() {
    let mut m = module("Test");
    m.consts.push(constant("Name", "Bool", LiteralValue::Str("hi".into())));
    assert_eq!(problems(vec![m]), one("Test", "const 'Name': type 'Bool' incompatible with value Str(\"hi\")"));
}

#[test]
fn incompatible_char_message() {
    let mut m = module("Test");
    m.consts.push(constant("Letter", "U8", LiteralValue::Char('x')));
    assert_eq!(problems(vec![m]), one("Test", "const 'Letter': type 'U8' incompatible with value Char('x')"));
}

#[test]
fn incompatible_bool_message() {
    let mut m = module("Test");
    m.consts.push(constant("Flag", "U8", LiteralValue::Bool(true)));
    assert_eq!(problems(vec![m]), one("Test", "const 'Flag': type 'U8' incompatible with value Bool(true)"));
}

#[test]
fn incompatible_int_message() {
    let mut m = module("Test");
    m.consts.push(constant("Count", "String", LiteralValue::Int(5)));
    assert_eq!(problems(vec![m]), one("Test", "const 'Count': type 'String' incompatible with value Int(5)"));
}

#[test]
fn out_of_range_message() {
    let mut m = module("Test");
    m.consts.push(constant("Big", "U8", LiteralValue::Int(300)));
    assert_eq!(problems(vec![m]), one("Test", "const 'Big': value 300 out of range for 'U8'"));
}

#[test]
fn negative_out_of_range_message() {
    let mut m = module("Test");
    m.consts.push(constant("Neg", "U8", LiteralValue::Int(-1)));
    assert_eq!(problems(vec![m]), one("Test", "const 'Neg': value -1 out of range for 'U8'"));
}

#[test]
fn range_edges_accepted() {
    let mut m = module("Test");
    m.consts.push(constant("A", "U8", LiteralValue::Int(255)));
    m.consts.push(constant("B", "I8", LiteralValue::Int(-128)));
    m.consts.push(constant("C", "U32", LiteralValue::Int(4294967295)));
    m.consts.push(constant("D", "I32", LiteralValue::Int(-2147483648)));
    m.consts.push(constant("E", "I64", LiteralValue::Int(i64::MIN)));
    assert_eq!(problems(vec![m]), vec![]);
}

#[test]
fn range_edges_rejected() {
    let mut m = module("Test");
    m.consts.push(constant("A", "U16", LiteralValue::Int(65536)));
    m.consts.push(constant("B", "I16", LiteralValue::Int(-32769)));
    assert_eq!(
        problems(vec![m]),
        vec![
            ("Test".to_string(), "const 'A': value 65536 out of range for 'U16'".to_string()),
            ("Test".to_string(), "const 'B': value -32769 out of range for 'I16'".to_string()),
        ]
    );
}

#[test]
fn incompatible_str_escapes() {
    let mut m = module("Test");
    m.consts.push(constant("Quote", "U8", LiteralValue::Str("a\"b\n".into())));
    assert_eq!(problems(vec![m]), one("Test", "const 'Quote': type 'U8' incompatible with value Str(\"a\\\"b\\n\")"));
}

#[test]
fn incompatible_char_escapes() {
    let mut m = module("Test");
    m.consts.push(constant("Newline", "U8", LiteralValue::Char('\n')));
    assert_eq!(problems(vec![m]), one("Test", "const 'Newline': type 'U8' incompatible with value Char('\\n')"));
}

#[test]
fn float_type_takes_float() {
    let mut m = module("Test");
    m.consts.push(constant("Pi", "F64", LiteralValue::Float(format!("{:?}", 3.14f64))));
    m.consts.push(constant("Half", "F32", LiteralValue::Float(format!("{:?}", 0.5f64))));
    m.consts.push(constant("Yes", "Bool", LiteralValue::Bool(true)));
    m.consts.push(constant("Initial", "Char", LiteralValue::Char('a')));
    assert_eq!(problems(vec![m]), vec![]);
}

fn private_struct(name: &str) -> StructDef {
    let mut s = struct_with_field(name, named("U8"));
    s.visibility = Visibility::Private;
    s
}

#[test]
fn private_type_in_public_field() {
    let mut m = module("Test");
    m.structs.push(private_struct("Hidden"));
    m.structs.push(struct_with_field("Shown", named("Hidden")));
    assert_eq!(problems(vec![m]), one("Test", "public struct 'Shown' has a field of private type 'Hidden'"));
}

#[test]
fn private_type_deep_in_public_field() {
    let mut m = module("Test");
    m.structs.push(private_struct("Hidden"));
    let app = TypeApplication { constructor: TypeName("Vec".into()), args: vec![named("Hidden")] };
    m.structs.push(struct_with_field("Shown", TypeExpr::Application(app)));
    assert_eq!(problems(vec![m]), one("Test", "public struct 'Shown' has a field of private type 'Hidden'"));
}

#[test]
fn private_struct_may_use_private_type() {
    let mut m = module("Test");
    m.structs.push(private_struct("Hidden"));
    let mut inner = struct_with_field("Inner", named("Hidden"));
    inner.visibility = Visibility::Private;
    m.structs.push(inner);
    assert_eq!(problems(vec![m]), vec![]);
}

#[test]
fn private_type_in_public_signature() {
    let mut m = module("Test");
    m.structs.push(private_struct("Hidden"));
    let p = Param::Named { name: ParamName("h".into()), typ: named("Hidden") };
    m.trait_decls.push(trait_decl("Show", vec![sig("show", vec![Param::BorrowSelf, p], None)], vec![]));
    assert_eq!(problems(vec![m]), one("Test", "public trait 'Show' method 'show' uses private type 'Hidden'"));
}

#[test]
fn private_type_in_public_return() {
    let mut m = module("Test");
    m.structs.push(private_struct("Hidden"));
    m.trait_decls.push(trait_decl("Show", vec![sig("show", vec![Param::BorrowSelf], Some(named("Hidden")))], vec![]));
    assert_eq!(problems(vec![m]), one("Test", "public trait 'Show' method 'show' uses private type 'Hidden'"));
}

#[test]
fn private_type_exported() {
    let mut m = module("Test");
    m.structs.push(private_struct("Hidden"));
    m.exports.push(ExportItem::Type_(TypeName("Hidden".into())));
    assert_eq!(problems(vec![m]), one("Test", "exports type 'Hidden' which is not public"));
}

#[test]
fn duplicate_generic_in_trait() {
    let mut m = module("Test");
    let mut t = trait_decl("Convert", vec![], vec![]);
    for _ in 0..2 {
        t.generic_params.push(GenericParamDef { name: TypeParamName("A".into()), bounds: vec![], default: None });
    }
    m.trait_decls.push(t);
    assert_eq!(problems(vec![m]), one("Test", "duplicate generic param 'A' in 'Convert'"));
}

#[test]
fn duplicate_generic_in_method() {
    let mut m = module("Test");
    let mut s = sig("show", vec![Param::BorrowSelf], None);
    for _ in 0..2 {
        s.generic_params.push(GenericParamDef { name: TypeParamName("T".into()), bounds: vec![], default: None });
    }
    m.trait_decls.push(trait_decl("Show", vec![s], vec![]));
    assert_eq!(problems(vec![m]), one("Test", "duplicate generic param 'T' in 'show'"));
}

#[test]
fn duplicate_generic_in_impl() {
    let mut m = module("Test");
    m.trait_decls.push(trait_decl("Show", vec![], vec![]));
    let mut ti = trait_impl("Show", vec![]);
    for _ in 0..2 {
        ti.generic_params.push(GenericParamDef { name: TypeParamName("T".into()), bounds: vec![], default: None });
    }
    m.trait_impls.push(ti);
    assert_eq!(problems(vec![m]), one("Test", "duplicate generic param 'T' in 'Show'"));
}

fn bounded(param: &str, bound: &str) -> GenericParamDef {
    GenericParamDef {
        name: TypeParamName(param.into()),
        bounds: vec![TraitBound { trait_name: TraitName(bound.into()), args: vec![] }],
        default: None,
    }
}

#[test]
fn unknown_bound_on_trait_parameter() {
    let mut m = module("Test");
    let mut t = trait_decl("Convert", vec![], vec![]);
    t.generic_params.push(bounded("A", "Nope"));
    m.trait_decls.push(t);
    assert_eq!(problems(vec![m]), one("Test", "trait 'Nope' not found"));
}

#[test]
fn unknown_bound_on_impl_and_method_parameters() {
    let mut m = module("Test");
    let mut s = sig("show", vec![Param::BorrowSelf], None);
    s.generic_params.push(bounded("T", "Missing"));
    m.trait_decls.push(trait_decl("Show", vec![s], vec![]));
    let mut ti = trait_impl("Show", vec![method("show", vec![Param::BorrowSelf], None)]);
    ti.generic_params.push(bounded("U", "Absent"));
    m.trait_impls.push(ti);
    assert_eq!(
        problems(vec![m]),
        vec![
            ("Test".to_string(), "trait 'Missing' not found".to_string()),
            ("Test".to_string(), "trait 'Absent' not found".to_string()),
        ]
    );
}

#[test]
fn unknown_bound_on_nested_parameter() {
    let mut m = module("Test");
    let mut inner = enum_def("Inner", &[], vec![]);
    inner.generic_params.push(bounded("T", "Nope"));
    m.enums.push(enum_def("Outer", &[], vec![EnumChild::NestedEnum(inner)]));
    assert_eq!(problems(vec![m]), one("Test", "trait 'Nope' not found"));
}

#[test]
fn nested_collision_with_later_top_level_name() {
    let mut m = module("Test");
    let point = StructDef {
        name: TypeName("Point".into()),
        visibility: Visibility::Public,
        generic_params: vec![],
        derives: vec![],
        children: vec![],
        span: span(),
    };
    m.enums.push(enum_def("Outer", &[], vec![EnumChild::NestedStruct(point)]));
    m.structs.push(struct_with_field("Point", named("U8")));
    assert_eq!(problems(vec![m]), one("Test", "nested type 'Point' collides with top-level name"));
}
