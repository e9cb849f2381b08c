//! The ranges of the integer types, as a clean program's consts keep them.

use vstd::prelude::*;

use crate::ast::{ConstDef, LiteralValue, ModuleDef, TypeExpr};
use crate::index::index_of;
use crate::laws::{const_fits, lemma_clean_program_consts};
use crate::verify::{const_errors, consts_literal_errors, int_in_range, is_int_type, literal_errors, verify_spec};

verus! {

/// An integer const of type `t` holds a value of that integer type: `t` is
/// one of `U8`, `U16`, `U32`, `U64`, `I8`, `I16`, `I32`, `I64`, and the
/// value lies in the type's range (a literal is an `i64`, so `I64` and the
/// upper end of `U64` need no bound).
pub open spec fn int_const_in_range(t: Seq<char>, v: int) -> bool {
    &&& t == "U8"@ || t == "U16"@ || t == "U32"@ || t == "U64"@ || t == "I8"@ || t == "I16"@ || t == "I32"@ || t == "I64"@
    &&& t == "U8"@ ==> 0 <= v <= 255
    &&& t == "U16"@ ==> 0 <= v <= 65535
    &&& t == "U32"@ ==> 0 <= v <= 4294967295
    &&& t == "U64"@ ==> 0 <= v
    &&& t == "I8"@ ==> -128 <= v <= 127
    &&& t == "I16"@ ==> -32768 <= v <= 32767
    &&& t == "I32"@ ==> -2147483648 <= v <= 2147483647
}

/// The names of the integer types differ from one another.
proof fn lemma_int_type_names_distinct()
    ensures
        "U8"@ != "U16"@ && "U8"@ != "U32"@ && "U8"@ != "U64"@ && "U8"@ != "I8"@ && "U8"@ != "I16"@ && "U8"@ != "I32"@ && "U8"@ != "I64"@,
        "U16"@ != "U32"@ && "U16"@ != "U64"@ && "U16"@ != "I8"@ && "U16"@ != "I16"@ && "U16"@ != "I32"@ && "U16"@ != "I64"@,
        "U32"@ != "U64"@ && "U32"@ != "I8"@ && "U32"@ != "I16"@ && "U32"@ != "I32"@ && "U32"@ != "I64"@,
        "U64"@ != "I8"@ && "U64"@ != "I16"@ && "U64"@ != "I32"@ && "U64"@ != "I64"@,
        "I8"@ != "I16"@ && "I8"@ != "I32"@ && "I8"@ != "I64"@,
        "I16"@ != "I32"@ && "I16"@ != "I64"@,
        "I32"@ != "I64"@,
{
    reveal_strlit("U8");
    reveal_strlit("U16");
    reveal_strlit("U32");
    reveal_strlit("U64");
    reveal_strlit("I8");
    reveal_strlit("I16");
    reveal_strlit("I32");
    reveal_strlit("I64");
    let names = seq!["U8"@, "U16"@, "U32"@, "U64"@, "I8"@, "I16"@, "I32"@, "I64"@];
    assert forall|i: int, j: int| 0 <= i < j < 8 implies names[i] != names[j] by {
        if names[i].len() == names[j].len() {
            if names[i][0] == names[j][0] {
                assert(names[i][1] != names[j][1] || names[i][2] != names[j][2]);
            }
        }
    }
    assert(names[0] != names[1] && names[0] != names[2] && names[0] != names[3] && names[1] != names[2] && names[1] != names[3]
        && names[2] != names[3] && names[4] != names[5] && names[4] != names[6] && names[5] != names[6]);
    assert(names[3] != names[4] && names[3] != names[5] && names[3] != names[6]);
    assert(names[0] != names[4] && names[1] != names[5] && names[2] != names[6]);
    assert(names[0] != names[5] && names[0] != names[6] && names[1] != names[4] && names[1] != names[6]);
    assert(names[2] != names[4] && names[2] != names[5]);
    assert(names[0] != names[7] && names[1] != names[7] && names[2] != names[7] && names[3] != names[7]);
    assert(names[4] != names[7] && names[5] != names[7] && names[6] != names[7]);
}

/// An integer literal suits a type exactly when the checks of its kind and
/// of its range both pass.
proof fn lemma_int_range_agrees(t: Seq<char>, v: int)
    ensures
        (is_int_type(t) && int_in_range(v, t)) <==> int_const_in_range(t, v),
{
    lemma_int_type_names_distinct();
}

proof fn lemma_fitting_int_in_range(c: ConstDef)
    requires
        const_fits(c),
    ensures
        c.typ matches TypeExpr::Named(t) ==> (c.value matches LiteralValue::Int(v) ==> int_const_in_range(t.0@, v as int)),
{
    match c.typ {
        TypeExpr::Named(t) => match c.value {
            LiteralValue::Int(v) => lemma_int_range_agrees(t.0@, v as int),
            _ => {},
        },
        _ => {},
    }
}

/// In a program in which verification finds no problem, every const
/// declared with an integer literal has an integer type, and its value lies
/// in that type's range: no negative value for an unsigned type, nothing
/// above 255 for `U8`, and so on.
pub proof fn lemma_clean_program_int_consts_in_range(ms: Seq<ModuleDef>)
    requires
        verify_spec(ms, index_of(ms)).len() == 0,
    ensures
        forall|mi: int, k: int| 0 <= mi < ms.len() && 0 <= k < ms[mi].consts@.len()
            ==> ((#[trigger] ms[mi].consts@[k]).typ matches TypeExpr::Named(t) ==> (ms[mi].consts@[k].value matches LiteralValue::Int(
            v,
        ) ==> int_const_in_range(t.0@, v as int))),
{
    lemma_clean_program_consts(ms);
    assert forall|mi: int, k: int| 0 <= mi < ms.len() && 0 <= k < ms[mi].consts@.len()
        implies ((#[trigger] ms[mi].consts@[k]).typ matches TypeExpr::Named(t) ==> (ms[mi].consts@[k].value matches LiteralValue::Int(
        v,
    ) ==> int_const_in_range(t.0@, v as int))) by {
        lemma_fitting_int_in_range(ms[mi].consts@[k]);
    }
}

/// A const's literal suits the type it is declared with, where that type
/// is a name: an integer literal an integer type whose range holds it (as
/// above), a float `F32` or `F64`, a string `String`, a boolean `Bool`, a
/// character `Char`. (A const declared with another form of type is not
/// judged.)
pub open spec fn literal_suits(c: ConstDef) -> bool {
    match c.typ {
        TypeExpr::Named(t) => match c.value {
            LiteralValue::Int(v) => int_const_in_range(t.0@, v as int),
            LiteralValue::Float(_) => t.0@ == "F32"@ || t.0@ == "F64"@,
            LiteralValue::Str(_) => t.0@ == "String"@,
            LiteralValue::Bool(_) => t.0@ == "Bool"@,
            LiteralValue::Char(_) => t.0@ == "Char"@,
        },
        _ => true,
    }
}

proof fn lemma_const_errors_iff(mn: Seq<char>, c: ConstDef)
    ensures
        const_errors(mn, c).len() == 0 <==> literal_suits(c),
{
    match c.typ {
        TypeExpr::Named(t) => match c.value {
            LiteralValue::Int(v) => lemma_int_range_agrees(t.0@, v as int),
            _ => {},
        },
        _ => {},
    }
}

proof fn lemma_consts_literal_iff(mn: Seq<char>, cs: Seq<ConstDef>)
    ensures
        consts_literal_errors(mn, cs).len() == 0 <==> forall|k: int| 0 <= k < cs.len() ==> literal_suits(#[trigger] cs[k]),
    decreases cs.len(),
{
    if cs.len() > 0 {
        let init = cs.drop_last();
        lemma_consts_literal_iff(mn, init);
        lemma_const_errors_iff(mn, cs.last());
        if forall|k: int| 0 <= k < cs.len() ==> literal_suits(#[trigger] cs[k]) {
            assert forall|k: int| 0 <= k < init.len() implies literal_suits(#[trigger] init[k]) by {
                assert(init[k] == cs[k]);
            }
            assert(literal_suits(cs[cs.len() - 1]));
        }
        if consts_literal_errors(mn, cs).len() == 0 {
            assert forall|k: int| 0 <= k < cs.len() implies literal_suits(#[trigger] cs[k]) by {
                if k < cs.len() - 1 {
                    assert(init[k] == cs[k]);
                }
            }
        }
    }
}

proof fn lemma_literal_errors_iff(ms: Seq<ModuleDef>, n: nat)
    requires
        n <= ms.len(),
    ensures
        literal_errors(ms, n).len() == 0 <==> forall|mi: int, k: int| 0 <= mi < n && 0 <= k < ms[mi].consts@.len()
            ==> literal_suits(#[trigger] ms[mi].consts@[k]),
    decreases n,
{
    if n > 0 {
        lemma_literal_errors_iff(ms, (n - 1) as nat);
        let m = ms[n - 1];
        lemma_consts_literal_iff(m.name.0@, m.consts@);
        if forall|mi: int, k: int| 0 <= mi < n && 0 <= k < ms[mi].consts@.len() ==> literal_suits(#[trigger] ms[mi].consts@[k]) {
            assert forall|k: int| 0 <= k < m.consts@.len() implies literal_suits(#[trigger] m.consts@[k]) by {
                assert(literal_suits(ms[n - 1].consts@[k]));
            }
        }
    }
}

/// The literal check of a program finds no problem exactly when every
/// const's literal suits its declared type: a value in range for an
/// integer type, and the literal kind that the type takes.
pub proof fn lemma_literal_tier_clean_iff_consts_suit(ms: Seq<ModuleDef>)
    ensures
        literal_errors(ms, ms.len()).len() == 0 <==> forall|mi: int, k: int| 0 <= mi < ms.len() && 0 <= k < ms[mi].consts@.len()
            ==> literal_suits(#[trigger] ms[mi].consts@[k]),
{
    lemma_literal_errors_iff(ms, ms.len());
}

} // verus!
