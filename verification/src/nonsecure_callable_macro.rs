//! The expansion of the attribute that offers a function of the secure world
//! to the non-secure world.

use crate::hash::{hash_vector_name, name_hash};
use crate::source::{is_extern_c, Function, NOT_EXTERN_C};
use crate::text::{
    decimal, decimal_text, string_literal, string_literal_text, to_uppercase, uppercase_text,
};
use vstd::prelude::*;
use vstd::string::StringExecFns;

verus! {

/// The name of the veneer of a function: the function's name in upper case,
/// with `_veneer` behind it.
pub open spec fn veneer_name_text(name: Seq<char>) -> Seq<char> {
    uppercase_text(name) + "_veneer"@
}

/// What `nonsecure_callable` puts in place of a function: a veneer in the
/// section that the non-secure world may call into, made of the secure
/// gateway instruction, a branch to the function and the hash of the
/// function's name, and the function itself as a non-secure entry. A function
/// that does not name the C ABI gives a compile error instead.
pub open spec fn nonsecure_callable_text(function: Function) -> Seq<char> {
    let name = function.sig.ident@;
    if !is_extern_c(function.sig) {
        NOT_EXTERN_C@
    } else {
        "core::arch::global_asm!(\".section .nsc_veneers, \\\"ax\\\"\", "@ + string_literal_text(
            ".global "@ + veneer_name_text(name),
        ) + ", \".thumb_func\", "@ + string_literal_text(veneer_name_text(name) + ":"@)
            + ", \"SG\", "@ + string_literal_text("B.w "@ + name) + ", "@ + string_literal_text(
            ".4byte "@ + decimal_text(name_hash(name) as nat),
        ) + ",); #[cmse_nonsecure_entry] #[no_mangle] "@ + function.tokens@
    }
}

/// Expands `nonsecure_callable` on a function.
pub fn nonsecure_callable(function: &Function) -> (expansion: String)
    ensures
        expansion@ == nonsecure_callable_text(*function),
{
    if !function.sig.is_extern_c() {
        return String::from_str(NOT_EXTERN_C);
    }
    let function_name = function.sig.ident.as_str();
    let function_veneer_name = to_uppercase(function_name).concat("_veneer");
    let function_name_hash = hash_vector_name(function_name);

    let global = String::from_str(".global ").concat(function_veneer_name.as_str());
    let label = function_veneer_name.concat(":");
    let branch = String::from_str("B.w ").concat(function_name);
    let hash = String::from_str(".4byte ").concat(decimal(function_name_hash).as_str());

    let mut expansion = String::from_str(
        "core::arch::global_asm!(\".section .nsc_veneers, \\\"ax\\\"\", ",
    );
    expansion.append(string_literal(global.as_str()).as_str());
    expansion.append(", \".thumb_func\", ");
    expansion.append(string_literal(label.as_str()).as_str());
    expansion.append(", \"SG\", ");
    expansion.append(string_literal(branch.as_str()).as_str());
    expansion.append(", ");
    expansion.append(string_literal(hash.as_str()).as_str());
    expansion.append(",); #[cmse_nonsecure_entry] #[no_mangle] ");
    expansion.append(function.tokens.as_str());
    expansion
}

} // verus!
