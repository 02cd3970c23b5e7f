//! The expansion of the attribute that offers a function of the non-secure
//! world to the secure world.

use crate::hash::{hash_vector_name, name_hash};
use crate::source::{is_extern_c, pointer_type_text, Function, NOT_EXTERN_C};
use crate::text::{decimal, decimal_text, to_uppercase, uppercase_text};
use vstd::prelude::*;
use vstd::string::StringExecFns;

verus! {

/// The name of the vector table row of a function: the function's name in
/// upper case, with `_VECTOR` behind it.
pub open spec fn vector_name_text(name: Seq<char>) -> Seq<char> {
    uppercase_text(name) + "_VECTOR"@
}

/// What `secure_callable` puts in place of a function: a row of the vector
/// table, which holds a pointer to the function and the hash of its name, and
/// the function itself in the section of exported code. A function that does
/// not name the C ABI gives a compile error instead.
pub open spec fn secure_callable_text(function: Function) -> Seq<char> {
    let signature = function.sig;
    if !is_extern_c(signature) {
        NOT_EXTERN_C@
    } else {
        "#[link_section = \".vectors\"] #[no_mangle] #[used] static "@ + vector_name_text(
            signature.ident@,
        ) + ": ("@ + pointer_type_text(signature, Some(signature.abi->0.tokens@)) + ", u32) = ("@
            + signature.ident@ + ", "@ + decimal_text(name_hash(signature.ident@) as nat)
            + "u32); #[link_section = \".text.exported\"] #[no_mangle] "@ + function.tokens@
    }
}

/// Expands `secure_callable` on a function.
pub fn secure_callable(function: &Function) -> (expansion: String)
    ensures
        expansion@ == secure_callable_text(*function),
{
    let signature = &function.sig;
    if !signature.is_extern_c() {
        return String::from_str(NOT_EXTERN_C);
    }
    let abi = match &signature.abi {
        Some(abi) => abi,
        None => {
            return String::from_str(NOT_EXTERN_C);
        },
    };
    let function_name = signature.ident.as_str();
    let vector_name_hash = hash_vector_name(function_name);
    let function_ptr_type = signature.pointer_type(Some(abi.tokens.as_str()));
    let mut expansion = String::from_str(
        "#[link_section = \".vectors\"] #[no_mangle] #[used] static ",
    );
    expansion.append(to_uppercase(function_name).as_str());
    expansion.append("_VECTOR");
    expansion.append(": (");
    expansion.append(function_ptr_type.as_str());
    expansion.append(", u32) = (");
    expansion.append(function_name);
    expansion.append(", ");
    expansion.append(decimal(vector_name_hash).as_str());
    expansion.append("u32); #[link_section = \".text.exported\"] #[no_mangle] ");
    expansion.append(function.tokens.as_str());
    expansion
}

} // verus!
