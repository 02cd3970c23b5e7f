use trustzone_m::nonsecure_callable_macro::nonsecure_callable;
use trustzone_m::secure_callable_macro::secure_callable;
use trustzone_m::source::{Abi, FnArg, Function, Signature, TypedArg, NOT_EXTERN_C};

fn function(abi: Option<Abi>, unsafety: bool) -> Function {
    let abi_tokens = match &abi {
        Some(abi) => format!("{} ", abi.tokens),
        None => String::new(),
    };
    let unsafe_tokens = if unsafety { "unsafe " } else { "" };
    let sig_tokens = format!("{unsafe_tokens}{abi_tokens}fn write_thing(val: u32)");
    Function {
        attrs: Vec::new(),
        sig: Signature {
            tokens: sig_tokens.clone(),
            ident: String::from("write_thing"),
            unsafety,
            abi,
            inputs: vec![FnArg::Typed(TypedArg {
                attrs: Vec::new(),
                name: Some(String::from("val")),
                ty: String::from("u32"),
            })],
            variadic: None,
            output: None,
        },
        tokens: format!("pub {sig_tokens} {{ unsafe {{ THING = val; }} }}"),
        nested: Vec::new(),
    }
}

fn extern_named(name: &str) -> Option<Abi> {
    Some(Abi { tokens: format!("extern \"{name}\""), name: Some(String::from(name)) })
}

fn pretty(text: &str) -> String {
    prettyplease::unparse(&syn::parse_file(text).unwrap())
}

#[test]
fn secure_callable_macro_test_name() {
    let output = secure_callable(&function(extern_named("C"), false));
    let output_text = "#[link_section = \".vectors\"]
#[no_mangle]
#[used]
static WRITE_THING_VECTOR: (extern \"C\" fn(u32), u32) = (write_thing, 4157143984u32);
#[link_section = \".text.exported\"]
#[no_mangle]
pub extern \"C\" fn write_thing(val: u32) {
    unsafe {
        THING = val;
    }
}
";
    assert_eq!(pretty(&output).replace("\r\n", "\n"), output_text.replace("\r\n", "\n"));
}

#[test]
fn nonsecure_callable_macro_test_name() {
    let output = nonsecure_callable(&function(extern_named("C"), false));
    let output_text = "core::arch::global_asm!(
    \".section .nsc_veneers, \\\"ax\\\"\", \".global WRITE_THING_veneer\", \".thumb_func\",
    \"WRITE_THING_veneer:\", \"SG\", \"B.w write_thing\", \".4byte 4157143984\",
);
#[cmse_nonsecure_entry]
#[no_mangle]
pub extern \"C\" fn write_thing(val: u32) {
    unsafe {
        THING = val;
    }
}
";
    assert_eq!(pretty(&output).replace("\r\n", "\n"), output_text.replace("\r\n", "\n"));
}

#[test]
fn secure_callable_writes_one_table_row_and_the_function() {
    assert_eq!(
        secure_callable(&function(extern_named("C"), false)),
        "#[link_section = \".vectors\"] #[no_mangle] #[used] static WRITE_THING_VECTOR: (extern \"C\" fn(u32), u32) = (write_thing, 4157143984u32); #[link_section = \".text.exported\"] #[no_mangle] pub extern \"C\" fn write_thing(val: u32) { unsafe { THING = val; } }"
    );
}

#[test]
fn nonsecure_callable_writes_one_veneer_and_the_function() {
    assert_eq!(
        nonsecure_callable(&function(extern_named("C"), false)),
        "core::arch::global_asm!(\".section .nsc_veneers, \\\"ax\\\"\", \".global WRITE_THING_veneer\", \".thumb_func\", \"WRITE_THING_veneer:\", \"SG\", \"B.w write_thing\", \".4byte 4157143984\",); #[cmse_nonsecure_entry] #[no_mangle] pub extern \"C\" fn write_thing(val: u32) { unsafe { THING = val; } }"
    );
}

#[test]
fn the_table_row_keeps_the_unsafety_of_the_function() {
    let output = secure_callable(&function(extern_named("C"), true));
    assert!(output.contains("static WRITE_THING_VECTOR: (unsafe extern \"C\" fn(u32), u32) = (write_thing, 4157143984u32);"));
}

#[test]
fn the_c_abi_may_be_written_in_lower_case() {
    let output = secure_callable(&function(extern_named("c"), false));
    assert!(output.contains("static WRITE_THING_VECTOR: (extern \"c\" fn(u32), u32)"));
    assert_ne!(nonsecure_callable(&function(extern_named("c"), false)), NOT_EXTERN_C);
}

#[test]
fn a_function_that_is_not_extern_c_gives_a_compile_error() {
    let expected = "compile_error!(\"Function must be 'extern \\\"C\\\"'\");";
    assert_eq!(NOT_EXTERN_C, expected);
    let unnamed = Some(Abi { tokens: String::from("extern"), name: None });
    for abi in [None, unnamed, extern_named("Rust"), extern_named("C-unwind"), extern_named("")] {
        let function = function(abi, false);
        assert_eq!(secure_callable(&function), expected);
        assert_eq!(nonsecure_callable(&function), expected);
    }
    assert_eq!(pretty(expected), "compile_error!(\"Function must be 'extern \\\"C\\\"'\");\n");
}

#[test]
fn the_names_of_row_and_veneer_are_in_upper_case() {
    let mut function = function(extern_named("C"), false);
    function.sig.ident = String::from("blinkLed2");
    assert!(secure_callable(&function).contains("static BLINKLED2_VECTOR: "));
    let veneer = nonsecure_callable(&function);
    assert!(veneer.contains("\".global BLINKLED2_veneer\""));
    assert!(veneer.contains("\"BLINKLED2_veneer:\""));
    assert!(veneer.contains("\"B.w blinkLed2\""));
}
