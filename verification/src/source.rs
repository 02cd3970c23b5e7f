//! A plain model of the source items that the generator reads: the functions,
//! methods and module declarations of a parsed file, with the parts of a
//! signature that the generated code is made from.

use crate::text::{join, joined_text, lemma_views_push, to_uppercase, uppercase_text, views};
use vstd::prelude::*;
use vstd::string::StringExecFns;

verus! {

/// An attribute on an item, known by the last segment of its path.
#[derive(Debug)]
pub struct Attribute {
    pub name: String,
}

/// An argument with a type.
#[derive(Debug)]
pub struct TypedArg {
    /// The attributes on the argument, each as written.
    pub attrs: Vec<String>,
    /// The argument's name, where its pattern is a plain identifier.
    pub name: Option<String>,
    /// The argument's type, as written.
    pub ty: String,
}

/// One input of a function.
#[derive(Debug)]
pub enum FnArg {
    /// `self` in any form.
    Receiver,
    Typed(TypedArg),
}

/// The ABI of a function.
#[derive(Debug)]
pub struct Abi {
    /// The ABI as written, keyword included.
    pub tokens: String,
    /// The value of the ABI's name, where it has one.
    pub name: Option<String>,
}

/// The signature of a function.
#[derive(Debug)]
pub struct Signature {
    /// The whole signature, as written.
    pub tokens: String,
    pub ident: String,
    pub unsafety: bool,
    pub abi: Option<Abi>,
    pub inputs: Vec<FnArg>,
    /// The variadic argument, as written, where the function has one.
    pub variadic: Option<String>,
    /// The return type, as written, where the function names one.
    pub output: Option<String>,
}

/// A function or a method.
#[derive(Debug)]
pub struct Function {
    pub attrs: Vec<Attribute>,
    pub sig: Signature,
    /// The whole function, as written, without the attribute that exports it.
    pub tokens: String,
    /// The items declared directly in the function's body.
    pub nested: Vec<Item>,
}

/// An item of an `impl` block.
#[derive(Debug)]
pub enum ImplItem {
    Method(Function),
    Other,
}

/// A module declaration.
#[derive(Debug)]
pub struct Module {
    pub ident: String,
    /// The module's items, where they stand in braces behind its name. A
    /// module without them lives in a file of its own.
    pub content: Option<Vec<Item>>,
}

/// An item of a file or of a function's body.
#[derive(Debug)]
pub enum Item {
    Fn(Function),
    Impl(Vec<ImplItem>),
    Mod(Module),
    Static,
    Other,
}

/// A parsed source file.
#[derive(Debug)]
pub struct SourceFile {
    pub items: Vec<Item>,
}

/// Whether one of the attributes has the given name.
pub open spec fn has_attr(attrs: Seq<Attribute>, name: Seq<char>) -> bool {
    exists|i: int| 0 <= i < attrs.len() && (#[trigger] attrs[i]).name@ == name
}

/// The inputs that have a type, in order.
pub open spec fn typed_inputs(inputs: Seq<FnArg>) -> Seq<TypedArg>
    decreases inputs.len(),
{
    if inputs.len() == 0 {
        Seq::empty()
    } else {
        match inputs.last() {
            FnArg::Typed(arg) => typed_inputs(inputs.drop_last()).push(arg),
            FnArg::Receiver => typed_inputs(inputs.drop_last()),
        }
    }
}

/// The modules that an item declares without a body, each as the path of
/// its name below `prefix`: the item itself where it is such a module, and
/// those inside it where it is a module with a body.
pub open spec fn external_modules_of(item: Item, prefix: Seq<Seq<char>>) -> Seq<Seq<Seq<char>>>
    decreases item,
{
    match item {
        Item::Mod(module) => match module.content {
            Some(items) => external_modules(items@, prefix.push(module.ident@)),
            None => seq![prefix.push(module.ident@)],
        },
        _ => Seq::empty(),
    }
}

/// The modules that a list of items declares without a body, depth first in
/// the order of the source. Each is named by its path below `prefix`: the
/// names of the modules with a body around it, then its own name.
pub open spec fn external_modules(items: Seq<Item>, prefix: Seq<Seq<char>>) -> Seq<
    Seq<Seq<char>>,
>
    decreases items,
{
    if items.len() == 0 {
        Seq::empty()
    } else {
        external_modules(items.drop_last(), prefix) + external_modules_of(items.last(), prefix)
    }
}

/// The paths that a list of lists of strings holds.
pub open spec fn paths(modules: Seq<Vec<String>>) -> Seq<Seq<Seq<char>>> {
    Seq::new(modules.len(), |i: int| views(modules[i]@))
}

/// One parameter of a function pointer type: the argument's attributes and
/// its type, without its name.
pub open spec fn parameter_text(arg: TypedArg) -> Seq<char> {
    joined_text(views(arg.attrs@).push(arg.ty@), " "@)
}

/// The parameters of the function pointer type of a signature: one for each
/// input that has a type, then the variadic argument if there is one.
pub open spec fn pointer_parameters(signature: Signature) -> Seq<Seq<char>> {
    let typed = typed_inputs(signature.inputs@);
    let parameters = Seq::new(typed.len(), |i: int| parameter_text(typed[i]));
    match signature.variadic {
        Some(variadic) => parameters.push(variadic@),
        None => parameters,
    }
}

/// The type of a pointer to a function with the given signature and ABI.
pub open spec fn pointer_type_text(signature: Signature, abi: Option<Seq<char>>) -> Seq<char> {
    let unsafety = if signature.unsafety {
        "unsafe "@
    } else {
        Seq::empty()
    };
    let abi = match abi {
        Some(abi) => abi + " "@,
        None => Seq::empty(),
    };
    let output = match signature.output {
        Some(output) => " -> "@ + output@,
        None => Seq::empty(),
    };
    unsafety + abi + "fn("@ + joined_text(pointer_parameters(signature), ", "@) + ")"@ + output
}

/// The names of the inputs that have a type. `None` where one of them is not
/// bound to a plain identifier.
pub open spec fn argument_names(inputs: Seq<FnArg>) -> Option<Seq<Seq<char>>> {
    let typed = typed_inputs(inputs);
    if forall|i: int| 0 <= i < typed.len() ==> (#[trigger] typed[i]).name is Some {
        Some(Seq::new(typed.len(), |i: int| typed[i].name->0@))
    } else {
        None
    }
}

proof fn lemma_typed_inputs_step(inputs: Seq<FnArg>, index: int)
    requires
        0 <= index < inputs.len(),
    ensures
        typed_inputs(inputs.take(index + 1)) == match inputs[index] {
            FnArg::Typed(arg) => typed_inputs(inputs.take(index)).push(arg),
            FnArg::Receiver => typed_inputs(inputs.take(index)),
        },
{
    let upto = inputs.take(index + 1);
    assert(upto.drop_last() == inputs.take(index));
    assert(upto.last() == inputs[index]);
}

fn parameter(arg: &TypedArg) -> (text: String)
    ensures
        text@ == parameter_text(*arg),
{
    let mut parts: Vec<String> = Vec::new();
    let mut index: usize = 0;
    while index < arg.attrs.len()
        invariant
            index <= arg.attrs.len(),
            views(parts@) == views(arg.attrs@).take(index as int),
        decreases arg.attrs.len() - index,
    {
        let ghost before = parts@;
        let attr = arg.attrs[index].clone();
        parts.push(attr);
        index += 1;
        proof {
            lemma_views_push(before, attr);
            assert(views(arg.attrs@).take(index as int) == views(arg.attrs@).take(index - 1).push(
                arg.attrs@[index - 1]@,
            ));
        }
    }
    let ghost before = parts@;
    let ty = arg.ty.clone();
    parts.push(ty);
    proof {
        lemma_views_push(before, ty);
        assert(views(arg.attrs@).take(arg.attrs.len() as int) == views(arg.attrs@));
    }
    join(&parts, " ")
}

/// Whether a signature names the C ABI, in upper or lower case.
pub open spec fn is_extern_c(signature: Signature) -> bool {
    match signature.abi {
        Some(abi) => match abi.name {
            Some(name) => uppercase_text(name@) == "C"@,
            None => false,
        },
        None => false,
    }
}

/// What stands in place of an exported function that does not name the C ABI:
/// a compile error.
pub const NOT_EXTERN_C: &'static str = "compile_error!(\"Function must be 'extern \\\"C\\\"'\");";

impl Signature {
    /// Whether the signature names the C ABI, in upper or lower case.
    pub fn is_extern_c(&self) -> (named: bool)
        ensures
            named == is_extern_c(*self),
    {
        match &self.abi {
            Some(abi) => match &abi.name {
                Some(name) => to_uppercase(name.as_str()) == String::from_str("C"),
                None => false,
            },
            None => false,
        }
    }

    /// Writes the type of a pointer to a function with this signature, called
    /// through the given ABI.
    pub fn pointer_type(&self, abi: Option<&str>) -> (text: String)
        ensures
            text@ == pointer_type_text(
                *self,
                match abi {
                    Some(abi) => Some(abi@),
                    None => None,
                },
            ),
    {
        let mut parameters: Vec<String> = Vec::new();
        let mut index: usize = 0;
        while index < self.inputs.len()
            invariant
                index <= self.inputs.len(),
                views(parameters@) == ({
                    let typed = typed_inputs(self.inputs@.take(index as int));
                    Seq::new(typed.len(), |i: int| parameter_text(typed[i]))
                }),
            decreases self.inputs.len() - index,
        {
            proof {
                lemma_typed_inputs_step(self.inputs@, index as int);
            }
            let ghost before = parameters@;
            match &self.inputs[index] {
                FnArg::Typed(arg) => {
                    let text = parameter(arg);
                    parameters.push(text);
                    proof {
                        lemma_views_push(before, text);
                    }
                },
                FnArg::Receiver => {},
            }
            index += 1;
            proof {
                let typed = typed_inputs(self.inputs@.take(index as int));
                assert(views(parameters@) =~= Seq::new(
                    typed.len(),
                    |i: int| parameter_text(typed[i]),
                ));
            }
        }
        proof {
            assert(self.inputs@.take(self.inputs.len() as int) == self.inputs@);
        }
        let ghost before = parameters@;
        match &self.variadic {
            Some(variadic) => {
                let text = variadic.clone();
                parameters.push(text);
                proof {
                    lemma_views_push(before, text);
                }
            },
            None => {},
        }
        assert(views(parameters@) == pointer_parameters(*self));
        let mut text = String::new();
        if self.unsafety {
            text.append("unsafe ");
        }
        match abi {
            Some(abi) => {
                text.append(abi);
                text.append(" ");
            },
            None => {},
        }
        text.append("fn(");
        let list = join(&parameters, ", ");
        text.append(list.as_str());
        text.append(")");
        match &self.output {
            Some(output) => {
                text.append(" -> ");
                text.append(output.as_str());
            },
            None => {},
        }
        text
    }

    /// The names of the arguments that have a type, in order. `None` where one
    /// of them is not bound to a plain identifier.
    pub fn argument_names(&self) -> (names: Option<Vec<String>>)
        ensures
            match names {
                Some(names) => argument_names(self.inputs@) == Some(views(names@)),
                None => argument_names(self.inputs@) is None,
            },
    {
        let mut names: Vec<String> = Vec::new();
        let mut index: usize = 0;
        while index < self.inputs.len()
            invariant
                index <= self.inputs.len(),
                argument_names(self.inputs@.take(index as int)) == Some(views(names@)),
            decreases self.inputs.len() - index,
        {
            proof {
                lemma_typed_inputs_step(self.inputs@, index as int);
            }
            let ghost before = typed_inputs(self.inputs@.take(index as int));
            let ghost names_before = names@;
            match &self.inputs[index] {
                FnArg::Typed(arg) => {
                    match &arg.name {
                        Some(name) => {
                            let name = name.clone();
                            names.push(name);
                            proof {
                                lemma_views_push(names_before, name);
                            }
                        },
                        None => {
                            proof {
                                let typed = typed_inputs(self.inputs@.take(index as int + 1));
                                assert(typed.last().name is None);
                                lemma_typed_inputs_prefix(self.inputs@, index as int + 1);
                                let all = typed_inputs(self.inputs@);
                                assert(all[typed.len() - 1] == typed.last());
                            }
                            return None;
                        },
                    }
                },
                FnArg::Receiver => {},
            }
            index += 1;
            proof {
                let typed = typed_inputs(self.inputs@.take(index as int));
                assert forall|i: int| 0 <= i < typed.len() implies (#[trigger] typed[i]).name
                    is Some by {
                    if i < before.len() {
                        assert(typed[i] == before[i]);
                    }
                }
                assert(views(names@) =~= Seq::new(typed.len(), |i: int| typed[i].name->0@));
            }
        }
        proof {
            assert(self.inputs@.take(self.inputs.len() as int) == self.inputs@);
        }
        Some(names)
    }
}

/// The typed inputs of a prefix are a prefix of the typed inputs.
proof fn lemma_typed_inputs_prefix(inputs: Seq<FnArg>, n: int)
    requires
        0 <= n <= inputs.len(),
    ensures
        typed_inputs(inputs.take(n)).len() <= typed_inputs(inputs).len(),
        forall|i: int|
            0 <= i < typed_inputs(inputs.take(n)).len() ==> typed_inputs(inputs.take(n))[i]
                == typed_inputs(inputs)[i],
    decreases inputs.len() - n,
{
    if n == inputs.len() {
        assert(inputs.take(n) == inputs);
    } else {
        lemma_typed_inputs_step(inputs, n);
        lemma_typed_inputs_prefix(inputs, n + 1);
    }
}

} // verus!
