//! The whole check: index a program, verify it, and emit it when nothing
//! is wrong.

use vstd::prelude::*;

use crate::ast::ModuleDef;
use crate::emit::{resolution_of, Emitter};
use crate::index::{index_of, Index};
use crate::program::Program;
use crate::verify::{error_texts, lemma_built_index_fits, verify_spec, VerifyError, Verifier};

verus! {

/// Verifies a program and, when verification finds no problem, emits it
/// with its resolution table; otherwise hands back every problem found.
pub fn verify_and_emit(modules: Vec<ModuleDef>) -> (r: Result<Program, Vec<VerifyError>>)
    requires
        modules@.len() <= u32::MAX,
    ensures
        match r {
            Ok(p) => verify_spec(modules@, index_of(modules@)).len() == 0 && p.modules@ == modules@
                && resolution_of(modules@, index_of(modules@), p.resolution),
            Err(errors) => errors@.len() > 0 && error_texts(errors@) == verify_spec(modules@, index_of(modules@)),
        },
{
    let index = Index::build(modules.as_slice());
    proof {
        lemma_built_index_fits(modules@);
    }
    let errors = Verifier::verify(modules.as_slice(), &index);
    if errors.len() > 0 {
        return Err(errors);
    }
    Ok(Emitter::emit(modules, &index))
}

} // verus!
