//! The text of each verification message, as a function of what it names,
//! and the code that writes it.

use vstd::prelude::*;

use crate::ast::LiteralValue;
use crate::text::{decimal, push_decimal, signed_decimal, push_signed_decimal, debug_text_of_str, debug_text_of_char, str_debug_text, char_debug_text};

verus! {

/// A module exports a type it does not define.
pub open spec fn msg_exports_missing_type(name: Seq<char>) -> Seq<char> {
    "exports type '"@ + name + "' but it is not defined"@
}

pub fn write_exports_missing_type(name: &str) -> (m: String)
    ensures
        m@ == msg_exports_missing_type(name@),
{
    let mut m = String::new();
    m.append("exports type '");
    m.append(name);
    m.append("' but it is not defined");
    assert(m@ =~= msg_exports_missing_type(name@));
    m
}

/// A module exports a trait it does not define.
pub open spec fn msg_exports_missing_trait(name: Seq<char>) -> Seq<char> {
    "exports trait '"@ + name + "' but it is not defined"@
}

pub fn write_exports_missing_trait(name: &str) -> (m: String)
    ensures
        m@ == msg_exports_missing_trait(name@),
{
    let mut m = String::new();
    m.append("exports trait '");
    m.append(name);
    m.append("' but it is not defined");
    assert(m@ =~= msg_exports_missing_trait(name@));
    m
}

/// An import names a module that is not in the program.
pub open spec fn msg_missing_module(source: Seq<char>) -> Seq<char> {
    "imports from module '"@ + source + "' which does not exist"@
}

pub fn write_missing_module(source: &str) -> (m: String)
    ensures
        m@ == msg_missing_module(source@),
{
    let mut m = String::new();
    m.append("imports from module '");
    m.append(source);
    m.append("' which does not exist");
    assert(m@ =~= msg_missing_module(source@));
    m
}

/// An imported name is not exported by its source module; `kind` is `type` or `trait`.
pub open spec fn msg_not_exported(kind: Seq<char>, name: Seq<char>, source: Seq<char>) -> Seq<char> {
    "imports "@ + kind + " '"@ + name + "' from '"@ + source + "' but it is not exported"@
}

pub fn write_not_exported(kind: &str, name: &str, source: &str) -> (m: String)
    ensures
        m@ == msg_not_exported(kind@, name@, source@),
{
    let mut m = String::new();
    m.append("imports ");
    m.append(kind);
    m.append(" '");
    m.append(name);
    m.append("' from '");
    m.append(source);
    m.append("' but it is not exported");
    assert(m@ =~= msg_not_exported(kind@, name@, source@));
    m
}

/// A name is imported more than once into a module.
pub open spec fn msg_imported_twice(name: Seq<char>) -> Seq<char> {
    "name '"@ + name + "' imported more than once"@
}

pub fn write_imported_twice(name: &str) -> (m: String)
    ensures
        m@ == msg_imported_twice(name@),
{
    let mut m = String::new();
    m.append("name '");
    m.append(name);
    m.append("' imported more than once");
    assert(m@ =~= msg_imported_twice(name@));
    m
}

/// A trait implementation names a trait not in scope.
pub open spec fn msg_unknown_impl_trait(name: Seq<char>) -> Seq<char> {
    "implements trait '"@ + name + "' which does not exist"@
}

pub fn write_unknown_impl_trait(name: &str) -> (m: String)
    ensures
        m@ == msg_unknown_impl_trait(name@),
{
    let mut m = String::new();
    m.append("implements trait '");
    m.append(name);
    m.append("' which does not exist");
    assert(m@ =~= msg_unknown_impl_trait(name@));
    m
}

/// A self-typed field names a type not in scope.
pub open spec fn msg_self_typed_field(name: Seq<char>) -> Seq<char> {
    "self-typed field '"@ + name + "': type '"@ + name + "' not found"@
}

pub fn write_self_typed_field(name: &str) -> (m: String)
    ensures
        m@ == msg_self_typed_field(name@),
{
    let mut m = String::new();
    m.append("self-typed field '");
    m.append(name);
    m.append("': type '");
    m.append(name);
    m.append("' not found");
    assert(m@ =~= msg_self_typed_field(name@));
    m
}

/// A named type is not in scope.
pub open spec fn msg_unknown_type(name: Seq<char>) -> Seq<char> {
    "type '"@ + name + "' not found"@
}

pub fn write_unknown_type(name: &str) -> (m: String)
    ensures
        m@ == msg_unknown_type(name@),
{
    let mut m = String::new();
    m.append("type '");
    m.append(name);
    m.append("' not found");
    assert(m@ =~= msg_unknown_type(name@));
    m
}

/// A type application's constructor is not in scope.
pub open spec fn msg_unknown_constructor(name: Seq<char>) -> Seq<char> {
    "type constructor '"@ + name + "' not found"@
}

pub fn write_unknown_constructor(name: &str) -> (m: String)
    ensures
        m@ == msg_unknown_constructor(name@),
{
    let mut m = String::new();
    m.append("type constructor '");
    m.append(name);
    m.append("' not found");
    assert(m@ =~= msg_unknown_constructor(name@));
    m
}

/// A type parameter is not among the generic parameters in scope.
pub open spec fn msg_unknown_param(name: Seq<char>) -> Seq<char> {
    "type parameter '"@ + name + "' not in scope"@
}

pub fn write_unknown_param(name: &str) -> (m: String)
    ensures
        m@ == msg_unknown_param(name@),
{
    let mut m = String::new();
    m.append("type parameter '");
    m.append(name);
    m.append("' not in scope");
    assert(m@ =~= msg_unknown_param(name@));
    m
}

/// A bound of a bounded parameter is neither a trait nor a type in scope.
pub open spec fn msg_unknown_bound(name: Seq<char>) -> Seq<char> {
    "bound '"@ + name + "' not found"@
}

pub fn write_unknown_bound(name: &str) -> (m: String)
    ensures
        m@ == msg_unknown_bound(name@),
{
    let mut m = String::new();
    m.append("bound '");
    m.append(name);
    m.append("' not found");
    assert(m@ =~= msg_unknown_bound(name@));
    m
}

/// An instance reference names a type not in scope.
pub open spec fn msg_unknown_instance(name: Seq<char>) -> Seq<char> {
    "instance type '"@ + name + "' not found"@
}

pub fn write_unknown_instance(name: &str) -> (m: String)
    ensures
        m@ == msg_unknown_instance(name@),
{
    let mut m = String::new();
    m.append("instance type '");
    m.append(name);
    m.append("' not found");
    assert(m@ =~= msg_unknown_instance(name@));
    m
}

/// A trait bound names a trait not in scope.
pub open spec fn msg_unknown_trait(name: Seq<char>) -> Seq<char> {
    "trait '"@ + name + "' not found"@
}

pub fn write_unknown_trait(name: &str) -> (m: String)
    ensures
        m@ == msg_unknown_trait(name@),
{
    let mut m = String::new();
    m.append("trait '");
    m.append(name);
    m.append("' not found");
    assert(m@ =~= msg_unknown_trait(name@));
    m
}

/// An implementation lacks a declared method.
pub open spec fn msg_missing_method(trait_name: Seq<char>, method: Seq<char>) -> Seq<char> {
    "impl '"@ + trait_name + "': missing method '"@ + method + "'"@
}

pub fn write_missing_method(trait_name: &str, method: &str) -> (m: String)
    ensures
        m@ == msg_missing_method(trait_name@, method@),
{
    let mut m = String::new();
    m.append("impl '");
    m.append(trait_name);
    m.append("': missing method '");
    m.append(method);
    m.append("'");
    assert(m@ =~= msg_missing_method(trait_name@, method@));
    m
}

/// An implementation has a method the trait does not declare.
pub open spec fn msg_extra_method(trait_name: Seq<char>, method: Seq<char>) -> Seq<char> {
    "impl '"@ + trait_name + "': method '"@ + method + "' not in declaration"@
}

pub fn write_extra_method(trait_name: &str, method: &str) -> (m: String)
    ensures
        m@ == msg_extra_method(trait_name@, method@),
{
    let mut m = String::new();
    m.append("impl '");
    m.append(trait_name);
    m.append("': method '");
    m.append(method);
    m.append("' not in declaration");
    assert(m@ =~= msg_extra_method(trait_name@, method@));
    m
}

/// A method's return type presence differs from its declaration.
pub open spec fn msg_return_mismatch(trait_name: Seq<char>, method: Seq<char>, detail: Seq<char>) -> Seq<char> {
    "impl '"@ + trait_name + "' method '"@ + method + "': return type "@ + detail
}

pub fn write_return_mismatch(trait_name: &str, method: &str, detail: &str) -> (m: String)
    ensures
        m@ == msg_return_mismatch(trait_name@, method@, detail@),
{
    let mut m = String::new();
    m.append("impl '");
    m.append(trait_name);
    m.append("' method '");
    m.append(method);
    m.append("': return type ");
    m.append(detail);
    assert(m@ =~= msg_return_mismatch(trait_name@, method@, detail@));
    m
}

/// A method takes `self` otherwise than declared.
pub open spec fn msg_self_kind_mismatch(trait_name: Seq<char>, method: Seq<char>) -> Seq<char> {
    "impl '"@ + trait_name + "' method '"@ + method + "': self parameter kind mismatch"@
}

pub fn write_self_kind_mismatch(trait_name: &str, method: &str) -> (m: String)
    ensures
        m@ == msg_self_kind_mismatch(trait_name@, method@),
{
    let mut m = String::new();
    m.append("impl '");
    m.append(trait_name);
    m.append("' method '");
    m.append(method);
    m.append("': self parameter kind mismatch");
    assert(m@ =~= msg_self_kind_mismatch(trait_name@, method@));
    m
}

/// An implementation lacks a required associated type.
pub open spec fn msg_missing_assoc_type(trait_name: Seq<char>, name: Seq<char>) -> Seq<char> {
    "impl '"@ + trait_name + "': missing associated type '"@ + name + "'"@
}

pub fn write_missing_assoc_type(trait_name: &str, name: &str) -> (m: String)
    ensures
        m@ == msg_missing_assoc_type(trait_name@, name@),
{
    let mut m = String::new();
    m.append("impl '");
    m.append(trait_name);
    m.append("': missing associated type '");
    m.append(name);
    m.append("'");
    assert(m@ =~= msg_missing_assoc_type(trait_name@, name@));
    m
}

/// Two types of a module share a name.
pub open spec fn msg_duplicate_type(name: Seq<char>) -> Seq<char> {
    "duplicate type name '"@ + name + "'"@
}

pub fn write_duplicate_type(name: &str) -> (m: String)
    ensures
        m@ == msg_duplicate_type(name@),
{
    let mut m = String::new();
    m.append("duplicate type name '");
    m.append(name);
    m.append("'");
    assert(m@ =~= msg_duplicate_type(name@));
    m
}

/// A const shares its name with another definition.
pub open spec fn msg_duplicate_name(name: Seq<char>) -> Seq<char> {
    "duplicate name '"@ + name + "'"@
}

pub fn write_duplicate_name(name: &str) -> (m: String)
    ensures
        m@ == msg_duplicate_name(name@),
{
    let mut m = String::new();
    m.append("duplicate name '");
    m.append(name);
    m.append("'");
    assert(m@ =~= msg_duplicate_name(name@));
    m
}

/// Two traits of a module share a name.
pub open spec fn msg_duplicate_trait(name: Seq<char>) -> Seq<char> {
    "duplicate trait name '"@ + name + "'"@
}

pub fn write_duplicate_trait(name: &str) -> (m: String)
    ensures
        m@ == msg_duplicate_trait(name@),
{
    let mut m = String::new();
    m.append("duplicate trait name '");
    m.append(name);
    m.append("'");
    assert(m@ =~= msg_duplicate_trait(name@));
    m
}

/// A nested type has the name of a top-level one.
pub open spec fn msg_nested_collision(name: Seq<char>) -> Seq<char> {
    "nested type '"@ + name + "' collides with top-level name"@
}

pub fn write_nested_collision(name: &str) -> (m: String)
    ensures
        m@ == msg_nested_collision(name@),
{
    let mut m = String::new();
    m.append("nested type '");
    m.append(name);
    m.append("' collides with top-level name");
    assert(m@ =~= msg_nested_collision(name@));
    m
}

/// A public struct has a field whose type names a private type.
pub open spec fn msg_private_in_field(owner: Seq<char>, name: Seq<char>) -> Seq<char> {
    "public struct '"@ + owner + "' has a field of private type '"@ + name + "'"@
}

pub fn write_private_in_field(owner: &str, name: &str) -> (m: String)
    ensures
        m@ == msg_private_in_field(owner@, name@),
{
    let mut m = String::new();
    m.append("public struct '");
    m.append(owner);
    m.append("' has a field of private type '");
    m.append(name);
    m.append("'");
    assert(m@ =~= msg_private_in_field(owner@, name@));
    m
}

/// A public trait's method signature names a private type.
pub open spec fn msg_private_in_signature(owner: Seq<char>, method: Seq<char>, name: Seq<char>) -> Seq<char> {
    "public trait '"@ + owner + "' method '"@ + method + "' uses private type '"@ + name + "'"@
}

pub fn write_private_in_signature(owner: &str, method: &str, name: &str) -> (m: String)
    ensures
        m@ == msg_private_in_signature(owner@, method@, name@),
{
    let mut m = String::new();
    m.append("public trait '");
    m.append(owner);
    m.append("' method '");
    m.append(method);
    m.append("' uses private type '");
    m.append(name);
    m.append("'");
    assert(m@ =~= msg_private_in_signature(owner@, method@, name@));
    m
}

/// A module exports a type that is not public.
pub open spec fn msg_exports_private(name: Seq<char>) -> Seq<char> {
    "exports type '"@ + name + "' which is not public"@
}

pub fn write_exports_private(name: &str) -> (m: String)
    ensures
        m@ == msg_exports_private(name@),
{
    let mut m = String::new();
    m.append("exports type '");
    m.append(name);
    m.append("' which is not public");
    assert(m@ =~= msg_exports_private(name@));
    m
}

/// A definition lists a generic parameter twice.
pub open spec fn msg_duplicate_generic(param: Seq<char>, owner: Seq<char>) -> Seq<char> {
    "duplicate generic param '"@ + param + "' in '"@ + owner + "'"@
}

pub fn write_duplicate_generic(param: &str, owner: &str) -> (m: String)
    ensures
        m@ == msg_duplicate_generic(param@, owner@),
{
    let mut m = String::new();
    m.append("duplicate generic param '");
    m.append(param);
    m.append("' in '");
    m.append(owner);
    m.append("'");
    assert(m@ =~= msg_duplicate_generic(param@, owner@));
    m
}

/// Names joined with a separator between each two.
pub open spec fn joined(names: Seq<Seq<char>>, sep: Seq<char>) -> Seq<char>
    decreases names.len(),
{
    if names.len() == 0 {
        seq![]
    } else if names.len() == 1 {
        names[0]
    } else {
        joined(names.drop_last(), sep) + sep + names.last()
    }
}

/// An import cycle, given the names of the modules along it.
pub open spec fn msg_circular(names: Seq<Seq<char>>) -> Seq<char> {
    "circular import: "@ + joined(names, " \u{2192} "@)
}

pub fn write_circular(names: &Vec<&str>) -> (m: String)
    ensures
        m@ == msg_circular(Seq::new(names@.len(), |i: int| names@[i]@)),
{
    let ghost ns = Seq::new(names@.len(), |i: int| names@[i]@);
    let mut m = String::new();
    m.append("circular import: ");
    let ghost head = m@;
    let n = names.len();
    for i in 0..n
        invariant
            n == names@.len(),
            ns == Seq::new(names@.len(), |i: int| names@[i]@),
            m@ == head + joined(ns.take(i as int), " \u{2192} "@),
    {
        assert(ns.take(i + 1).drop_last() =~= ns.take(i as int));
        if i != 0 {
            m.append(" \u{2192} ");
        }
        m.append(names[i]);
        if i == 0 {
            assert(joined(ns.take(1), " \u{2192} "@) == ns[0]);
        }
        assert(m@ =~= head + joined(ns.take(i + 1), " \u{2192} "@));
    }
    assert(ns.take(n as int) =~= ns);
    assert(m@ =~= msg_circular(ns));
    m
}

/// A type application with the wrong number of arguments.
pub open spec fn msg_arity(name: Seq<char>, expected: nat, got: nat) -> Seq<char> {
    "'"@ + name + "' expects "@ + decimal(expected) + " type arguments, got "@ + decimal(got)
}

pub fn write_arity(name: &str, expected: usize, got: usize) -> (m: String)
    ensures
        m@ == msg_arity(name@, expected as nat, got as nat),
{
    let mut m = String::new();
    m.append("'");
    m.append(name);
    m.append("' expects ");
    push_decimal(&mut m, expected as u64);
    m.append(" type arguments, got ");
    push_decimal(&mut m, got as u64);
    assert(m@ =~= msg_arity(name@, expected as nat, got as nat));
    m
}

/// A method with another number of parameters than its declaration.
pub open spec fn msg_param_count(trait_name: Seq<char>, method: Seq<char>, got: nat, declared: nat) -> Seq<char> {
    "impl '"@ + trait_name + "' method '"@ + method + "': "@ + decimal(got) + " params, declaration has "@
        + decimal(declared)
}

pub fn write_param_count(trait_name: &str, method: &str, got: usize, declared: usize) -> (m: String)
    ensures
        m@ == msg_param_count(trait_name@, method@, got as nat, declared as nat),
{
    let mut m = String::new();
    m.append("impl '");
    m.append(trait_name);
    m.append("' method '");
    m.append(method);
    m.append("': ");
    push_decimal(&mut m, got as u64);
    m.append(" params, declaration has ");
    push_decimal(&mut m, declared as u64);
    assert(m@ =~= msg_param_count(trait_name@, method@, got as nat, declared as nat));
    m
}

/// How a literal value is printed in a message: its variant and payload,
/// as Rust's `{:?}` writes them.
pub open spec fn literal_debug(v: LiteralValue) -> Seq<char> {
    match v {
        LiteralValue::Int(i) => "Int("@ + signed_decimal(i as int) + ")"@,
        LiteralValue::Float(t) => "Float("@ + t@ + ")"@,
        LiteralValue::Str(s) => "Str("@ + str_debug_text(s@) + ")"@,
        LiteralValue::Bool(b) => "Bool("@ + (if b { "true"@ } else { "false"@ }) + ")"@,
        LiteralValue::Char(c) => "Char("@ + char_debug_text(c) + ")"@,
    }
}

/// A const whose value does not suit its type.
pub open spec fn msg_incompatible(name: Seq<char>, typ: Seq<char>, value: LiteralValue) -> Seq<char> {
    "const '"@ + name + "': type '"@ + typ + "' incompatible with value "@ + literal_debug(value)
}

pub fn write_incompatible(name: &str, typ: &str, value: &LiteralValue) -> (m: String)
    ensures
        m@ == msg_incompatible(name@, typ@, *value),
{
    let mut m = String::new();
    m.append("const '");
    m.append(name);
    m.append("': type '");
    m.append(typ);
    m.append("' incompatible with value ");
    let ghost head = m@;
    match value {
        LiteralValue::Int(i) => {
            m.append("Int(");
            push_signed_decimal(&mut m, *i);
        },
        LiteralValue::Float(t) => {
            m.append("Float(");
            m.append(t.as_str());
        },
        LiteralValue::Str(s) => {
            m.append("Str(");
            let d = debug_text_of_str(s.as_str());
            m.append(d.as_str());
        },
        LiteralValue::Bool(b) => {
            m.append("Bool(");
            if *b {
                m.append("true");
            } else {
                m.append("false");
            }
        },
        LiteralValue::Char(c) => {
            m.append("Char(");
            let d = debug_text_of_char(*c);
            m.append(d.as_str());
        },
    }
    m.append(")");
    assert(m@ =~= msg_incompatible(name@, typ@, *value));
    m
}

/// An integer const outside the range of its type.
pub open spec fn msg_out_of_range(name: Seq<char>, value: int, typ: Seq<char>) -> Seq<char> {
    "const '"@ + name + "': value "@ + signed_decimal(value) + " out of range for '"@ + typ + "'"@
}

pub fn write_out_of_range(name: &str, value: i64, typ: &str) -> (m: String)
    ensures
        m@ == msg_out_of_range(name@, value as int, typ@),
{
    let mut m = String::new();
    m.append("const '");
    m.append(name);
    m.append("': value ");
    push_signed_decimal(&mut m, value);
    m.append(" out of range for '");
    m.append(typ);
    m.append("'");
    assert(m@ =~= msg_out_of_range(name@, value as int, typ@));
    m
}

} // verus!
