//! The build-time generator: it collects the functions that a source tree
//! exports to the other world, refuses names that clash, and writes the module
//! of forwarding functions through which the other world calls them.

use crate::hash::{hash_vector_name, name_hash};
use crate::source::{
    argument_names, external_modules, external_modules_of, has_attr, paths, pointer_type_text,
    Attribute, Function, ImplItem, Item, Signature, SourceFile,
};
use crate::text::{
    decimal, decimal_text, join, joined_text, lemma_views_push, string_literal,
    string_literal_text, views,
};
use crate::vector_table::{lemma_built_table_finds_rows, lookup, table_of};
use vstd::prelude::*;
use vstd::string::StringExecFns;

verus! {

/// Which world calls, and which world is called.
#[derive(Clone, Copy, Debug, PartialEq, Eq, Structural)]
pub enum Direction {
    /// The function lives in the non-secure world; the secure world calls it.
    SecureToNonSecure,
    /// The function lives in the secure world; the non-secure world calls it.
    NonSecureToSecure,
}

/// A function that one world offers to the other.
pub struct ExportedFunction {
    pub signature: Signature,
    pub direction: Direction,
}

/// An exported function as it was found in a source tree.
#[derive(Debug)]
pub enum TrustzoneExportedItem<'a> {
    /// A function marked `secure_callable`.
    SecureCallableFunction { signature: &'a Signature },
    /// A function marked `nonsecure_callable`.
    NonSecureCallableFunction { signature: &'a Signature },
}

/// The name of the attribute that offers a function to the secure world.
pub open spec fn secure_callable_name() -> Seq<char> {
    "secure_callable"@
}

/// The name of the attribute that offers a function to the non-secure world.
pub open spec fn nonsecure_callable_name() -> Seq<char> {
    "nonsecure_callable"@
}

/// What a function exports by its own attributes: once for each of the two
/// attributes that it carries, `secure_callable` first.
pub open spec fn own_exports(function: Function) -> Seq<ExportedFunction> {
    let secure = if has_attr(function.attrs@, secure_callable_name()) {
        seq![
            ExportedFunction {
                signature: function.sig,
                direction: Direction::SecureToNonSecure,
            },
        ]
    } else {
        Seq::empty()
    };
    let nonsecure = if has_attr(function.attrs@, nonsecure_callable_name()) {
        seq![
            ExportedFunction {
                signature: function.sig,
                direction: Direction::NonSecureToSecure,
            },
        ]
    } else {
        Seq::empty()
    };
    secure + nonsecure
}

/// The exports of a function: its own, then those of the items declared in its
/// body.
pub open spec fn exports_of_function(function: Function) -> Seq<ExportedFunction>
    decreases function,
{
    own_exports(function) + exports_of_items(function.nested@)
}

/// The exports of the methods of an `impl` block, in order.
pub open spec fn exports_of_impl_items(items: Seq<ImplItem>) -> Seq<ExportedFunction>
    decreases items,
{
    if items.len() == 0 {
        Seq::empty()
    } else {
        exports_of_impl_items(items.drop_last()) + match items.last() {
            ImplItem::Method(method) => exports_of_function(method),
            ImplItem::Other => Seq::empty(),
        }
    }
}

/// The exports of one item: those of a function, of the methods of an `impl`
/// block, and of the items of a module that has its body in the same file.
pub open spec fn exports_of_item(item: Item) -> Seq<ExportedFunction>
    decreases item,
{
    match item {
        Item::Fn(function) => exports_of_function(function),
        Item::Impl(items) => exports_of_impl_items(items@),
        Item::Mod(module) => match module.content {
            Some(items) => exports_of_items(items@),
            None => Seq::empty(),
        },
        _ => Seq::empty(),
    }
}

/// The exports of a list of items: depth first, in the order of the source.
pub open spec fn exports_of_items(items: Seq<Item>) -> Seq<ExportedFunction>
    decreases items,
{
    if items.len() == 0 {
        Seq::empty()
    } else {
        exports_of_items(items.drop_last()) + exports_of_item(items.last())
    }
}

/// How an export is described: by its kind and by the name of its function.
pub open spec fn description_text(export: ExportedFunction) -> Seq<char> {
    let kind = match export.direction {
        Direction::SecureToNonSecure => "SecureCallableFunction { ident: "@,
        Direction::NonSecureToSecure => "NonSecureCallableFunction { ident: "@,
    };
    kind + string_literal_text(export.signature.ident@) + " }"@
}

impl<'a> TrustzoneExportedItem<'a> {
    /// The exported function that this item stands for.
    pub open spec fn exported(self) -> ExportedFunction {
        match self {
            TrustzoneExportedItem::SecureCallableFunction { signature } => ExportedFunction {
                signature: *signature,
                direction: Direction::SecureToNonSecure,
            },
            TrustzoneExportedItem::NonSecureCallableFunction { signature } => ExportedFunction {
                signature: *signature,
                direction: Direction::NonSecureToSecure,
            },
        }
    }

    /// The signature of the exported function.
    pub fn signature(&self) -> (signature: &'a Signature)
        ensures
            *signature == self.exported().signature,
    {
        match self {
            TrustzoneExportedItem::SecureCallableFunction { signature } => signature,
            TrustzoneExportedItem::NonSecureCallableFunction { signature } => signature,
        }
    }

    /// The direction of the call that the item asks for.
    pub fn direction(&self) -> (direction: Direction)
        ensures
            direction == self.exported().direction,
    {
        match self {
            TrustzoneExportedItem::SecureCallableFunction { .. } => Direction::SecureToNonSecure,
            TrustzoneExportedItem::NonSecureCallableFunction { .. } => Direction::NonSecureToSecure,
        }
    }

    /// Says which kind of export the item is, and for which function.
    pub fn describe(&self) -> (text: String)
        ensures
            text@ == description_text(self.exported()),
    {
        let mut text = match self {
            TrustzoneExportedItem::SecureCallableFunction { .. } => String::from_str(
                "SecureCallableFunction { ident: ",
            ),
            TrustzoneExportedItem::NonSecureCallableFunction { .. } => String::from_str(
                "NonSecureCallableFunction { ident: ",
            ),
        };
        text.append(string_literal(self.signature().ident.as_str()).as_str());
        text.append(" }");
        text
    }

    /// Collects the exported functions of a list of items, depth first: each
    /// function and method by its own attributes, then the items declared in
    /// its body.
    pub fn find(items: &'a Vec<Item>) -> (found: Vec<TrustzoneExportedItem<'a>>)
        ensures
            exports_found(found@) == exports_of_items(items@),
    {
        let mut found: Vec<TrustzoneExportedItem<'a>> = Vec::new();
        find_in_items(items, &mut found);
        proof {
            assert(exports_found(found@) == Seq::<ExportedFunction>::empty()
                + exports_of_items(items@));
        }
        found
    }
}

/// The exported functions that a list of found items stands for.
pub open spec fn exports_found(found: Seq<TrustzoneExportedItem>) -> Seq<ExportedFunction> {
    Seq::new(found.len(), |i: int| found[i].exported())
}

fn find_in_function<'a>(function: &'a Function, found: &mut Vec<TrustzoneExportedItem<'a>>)
    ensures
        exports_found(final(found)@) == exports_found(old(found)@) + exports_of_function(
            *function,
        ),
    decreases function,
{
    if contains_secure_callable_attr(&function.attrs) {
        found.push(TrustzoneExportedItem::SecureCallableFunction { signature: &function.sig });
    }
    if contains_nonsecure_callable_attr(&function.attrs) {
        found.push(TrustzoneExportedItem::NonSecureCallableFunction { signature: &function.sig });
    }
    proof {
        assert(exports_found(found@) == exports_found(old(found)@) + own_exports(*function));
    }
    find_in_items(&function.nested, found);
}

fn find_in_impl_items<'a>(items: &'a Vec<ImplItem>, found: &mut Vec<TrustzoneExportedItem<'a>>)
    ensures
        exports_found(final(found)@) == exports_found(old(found)@) + exports_of_impl_items(
            items@,
        ),
    decreases items,
{
    let mut index: usize = 0;
    while index < items.len()
        invariant
            index <= items.len(),
            exports_found(found@) == exports_found(old(found)@) + exports_of_impl_items(
                items@.take(index as int),
            ),
        decreases items.len() - index,
    {
        proof {
            let upto = items@.take(index as int + 1);
            assert(upto.drop_last() == items@.take(index as int));
            assert(upto.last() == items@[index as int]);
        }
        match &items[index] {
            ImplItem::Method(method) => {
                find_in_function(method, found);
            },
            ImplItem::Other => {},
        }
        index += 1;
    }
    proof {
        assert(items@.take(items.len() as int) == items@);
    }
}

fn find_in_items<'a>(items: &'a Vec<Item>, found: &mut Vec<TrustzoneExportedItem<'a>>)
    ensures
        exports_found(final(found)@) == exports_found(old(found)@) + exports_of_items(items@),
    decreases items,
{
    let mut index: usize = 0;
    while index < items.len()
        invariant
            index <= items.len(),
            exports_found(found@) == exports_found(old(found)@) + exports_of_items(
                items@.take(index as int),
            ),
        decreases items.len() - index,
    {
        proof {
            let upto = items@.take(index as int + 1);
            assert(upto.drop_last() == items@.take(index as int));
            assert(upto.last() == items@[index as int]);
            assert(exports_of_items(upto) == exports_of_items(upto.drop_last())
                + exports_of_item(upto.last()));
        }
        let ghost before = found@;
        match &items[index] {
            Item::Fn(function) => {
                find_in_function(function, found);
            },
            Item::Impl(impl_items) => {
                find_in_impl_items(impl_items, found);
            },
            Item::Mod(module) => {
                match &module.content {
                    Some(content) => {
                        find_in_items(content, found);
                    },
                    None => {},
                }
            },
            _ => {},
        }
        proof {
            assert(exports_found(found@) =~= exports_found(before) + exports_of_item(
                items@[index as int],
            ));
        }
        index += 1;
    }
    proof {
        assert(items@.take(items.len() as int) == items@);
    }
}

fn contains_attr(attrs: &Vec<Attribute>, name: &str) -> (found: bool)
    ensures
        found == has_attr(attrs@, name@),
{
    let wanted = String::from_str(name);
    let mut index: usize = 0;
    while index < attrs.len()
        invariant
            index <= attrs.len(),
            wanted@ == name@,
            forall|i: int| 0 <= i < index ==> (#[trigger] attrs@[i]).name@ != name@,
        decreases attrs.len() - index,
    {
        if attrs[index].name == wanted {
            return true;
        }
        index += 1;
    }
    false
}

/// Whether an item carries the attribute `secure_callable`.
pub fn contains_secure_callable_attr(attrs: &Vec<Attribute>) -> (found: bool)
    ensures
        found == has_attr(attrs@, secure_callable_name()),
{
    contains_attr(attrs, "secure_callable")
}

/// Whether an item carries the attribute `nonsecure_callable`.
pub fn contains_nonsecure_callable_attr(attrs: &Vec<Attribute>) -> (found: bool)
    ensures
        found == has_attr(attrs@, nonsecure_callable_name()),
{
    contains_attr(attrs, "nonsecure_callable")
}

/// The expression that looks the called function up in the other world's
/// vector table.
pub open spec fn finder_call_text(direction: Direction) -> Seq<char> {
    match direction {
        Direction::SecureToNonSecure => "unsafe { super::find_ns_veneer(HASH) }"@,
        Direction::NonSecureToSecure => "super::find_nsc_veneer(HASH)"@,
    }
}

/// What a forwarding function says when the other world does not offer the
/// function that it forwards to.
pub open spec fn not_found_text(name: Seq<char>, direction: Direction) -> Seq<char> {
    match direction {
        Direction::SecureToNonSecure => "Could not find the veneer of nonsecure '"@ + name + "'"@,
        Direction::NonSecureToSecure => "Could not find the veneer of secure '"@ + name + "'"@,
    }
}

/// The ABI through which a forwarding function calls. A call into the
/// non-secure world takes the non-secure call ABI; a call into the secure
/// world takes the ABI of the function itself, since the gateway instruction
/// switches the world.
pub open spec fn call_abi_text(export: ExportedFunction) -> Option<Seq<char>> {
    match export.direction {
        Direction::SecureToNonSecure => Some("extern \"C-cmse-nonsecure-call\""@),
        Direction::NonSecureToSecure => match export.signature.abi {
            Some(abi) => Some(abi.tokens@),
            None => None,
        },
    }
}

/// Whether a forwarding function can be written for an export: each of its
/// typed arguments has a name to pass on.
pub open spec fn is_supported(export: ExportedFunction) -> bool {
    argument_names(export.signature.inputs@) is Some
}

/// The forwarding function of an export: public, with the signature of the
/// exported function. It looks the function up by the hash of its name, stops
/// the program where the other world does not offer it, sets the Thumb bit of
/// the pointer and calls through it with its own arguments.
pub open spec fn stub_text(export: ExportedFunction) -> Seq<char> {
    let signature = export.signature;
    "pub "@ + signature.tokens@ + " { const HASH: u32 = "@ + decimal_text(
        name_hash(signature.ident@) as nat,
    ) + "u32; let fn_ptr = "@ + finder_call_text(export.direction)
        + "; if fn_ptr.is_null() { panic!("@ + string_literal_text(
        not_found_text(signature.ident@, export.direction),
    ) + "); } let fn_ptr = unsafe { core::mem::transmute::<_, "@ + pointer_type_text(
        signature,
        call_abi_text(export),
    ) + ">(((fn_ptr as usize) | 1) as *const u32) }; fn_ptr("@ + joined_text(
        argument_names(signature.inputs@).unwrap(),
        ", "@,
    ) + ") }"@
}

/// A forwarding function with the name and the hash that it was made for.
#[derive(Debug)]
pub struct GeneratedItem {
    pub item: String,
    pub name: String,
    pub hash: u32,
}

/// What a generated item holds.
pub struct GeneratedText {
    pub item: Seq<char>,
    pub name: Seq<char>,
    pub hash: u32,
}

impl View for GeneratedItem {
    type V = GeneratedText;

    open spec fn view(&self) -> GeneratedText {
        GeneratedText { item: self.item@, name: self.name@, hash: self.hash }
    }
}

/// What a list of generated items holds.
pub open spec fn generated_texts(items: Seq<GeneratedItem>) -> Seq<GeneratedText> {
    Seq::new(items.len(), |i: int| items[i]@)
}

/// What is generated for one export.
pub open spec fn generated_for(export: ExportedFunction) -> GeneratedText {
    GeneratedText {
        item: stub_text(export),
        name: export.signature.ident@,
        hash: name_hash(export.signature.ident@),
    }
}

/// What is generated for a list of exports: one item for each, in order.
pub open spec fn generated_for_all(exports: Seq<ExportedFunction>) -> Seq<GeneratedText> {
    Seq::new(exports.len(), |i: int| generated_for(exports[i]))
}

/// Why a set of bindings is refused.
#[derive(Debug)]
pub enum BindingsError {
    /// Two exported functions have the same name.
    DuplicateName { name: String },
    /// Two exported functions with different names have the same hash.
    HashCollision { name: String, other_name: String },
    /// An exported function binds a typed argument to a pattern that is no
    /// plain identifier, so that no forwarding call can pass it on.
    UnsupportedArgument { function: String },
}

/// What a refusal holds.
pub enum Refusal {
    DuplicateName { name: Seq<char> },
    HashCollision { name: Seq<char>, other_name: Seq<char> },
    UnsupportedArgument { function: Seq<char> },
}

impl View for BindingsError {
    type V = Refusal;

    open spec fn view(&self) -> Refusal {
        match self {
            BindingsError::DuplicateName { name } => Refusal::DuplicateName { name: name@ },
            BindingsError::HashCollision { name, other_name } => Refusal::HashCollision {
                name: name@,
                other_name: other_name@,
            },
            BindingsError::UnsupportedArgument { function } => Refusal::UnsupportedArgument {
                function: function@,
            },
        }
    }
}

/// The text of a refusal.
pub open spec fn refusal_text(refusal: Refusal) -> Seq<char> {
    match refusal {
        Refusal::DuplicateName { name } => "Duplicate name found: "@ + name,
        Refusal::HashCollision { name, other_name } => "Hash collision found for `"@ + name
            + "` and `"@ + other_name
            + "`. To fix this, change one of the names. This is a limitation of how the trustzone-m-tools work."@,
        Refusal::UnsupportedArgument { function } => "Unsupported argument pattern in `"@
            + function + "`: every argument of an exported function must be a plain name"@,
    }
}

impl BindingsError {
    /// Says in words why the bindings were refused.
    pub fn message(&self) -> (text: String)
        ensures
            text@ == refusal_text(self@),
    {
        match self {
            BindingsError::DuplicateName { name } => {
                let mut text = String::from_str("Duplicate name found: ");
                text.append(name.as_str());
                text
            },
            BindingsError::HashCollision { name, other_name } => {
                let mut text = String::from_str("Hash collision found for `");
                text.append(name.as_str());
                text.append("` and `");
                text.append(other_name.as_str());
                text.append(
                    "`. To fix this, change one of the names. This is a limitation of how the trustzone-m-tools work.",
                );
                text
            },
            BindingsError::UnsupportedArgument { function } => {
                let mut text = String::from_str("Unsupported argument pattern in `");
                text.append(function.as_str());
                text.append("`: every argument of an exported function must be a plain name");
                text
            },
        }
    }
}

/// Whether another item has the name of item `i`.
pub open spec fn is_duplicate(items: Seq<GeneratedText>, i: int) -> bool {
    exists|j: int| 0 <= j < items.len() && j != i && (#[trigger] items[j]).name == items[i].name
}

/// Whether item `j` has another name than item `i` and the same hash.
pub open spec fn collides(items: Seq<GeneratedText>, i: int, j: int) -> bool {
    items[j].name != items[i].name && items[j].hash == items[i].hash
}

/// The first item below `n` that collides with item `i`.
pub open spec fn first_collision_below(items: Seq<GeneratedText>, i: int, n: int) -> Option<int>
    decreases n,
{
    if n <= 0 {
        None
    } else {
        match first_collision_below(items, i, n - 1) {
            Some(j) => Some(j),
            None => if collides(items, i, n - 1) {
                Some(n - 1)
            } else {
                None
            },
        }
    }
}

/// The first item that collides with item `i`.
pub open spec fn first_collision(items: Seq<GeneratedText>, i: int) -> Option<int> {
    first_collision_below(items, i, items.len() as int)
}

/// Whether item `i` clashes with another item, by its name or by its hash.
pub open spec fn clashes(items: Seq<GeneratedText>, i: int) -> bool {
    is_duplicate(items, i) || first_collision(items, i) is Some
}

/// The first item below `n` that clashes with another item.
pub open spec fn first_clashing_below(items: Seq<GeneratedText>, n: int) -> Option<int>
    decreases n,
{
    if n <= 0 {
        None
    } else {
        match first_clashing_below(items, n - 1) {
            Some(i) => Some(i),
            None => if clashes(items, n - 1) {
                Some(n - 1)
            } else {
                None
            },
        }
    }
}

/// The refusal that a list of generated items earns, if any: that of the first
/// item that clashes with another. Such an item is refused for its name where
/// another item has the same name, else for its hash, together with the first
/// item that has the same hash.
pub open spec fn first_clash(items: Seq<GeneratedText>) -> Option<Refusal> {
    match first_clashing_below(items, items.len() as int) {
        Some(i) => if is_duplicate(items, i) {
            Some(Refusal::DuplicateName { name: items[i].name })
        } else {
            Some(
                Refusal::HashCollision {
                    name: items[i].name,
                    other_name: items[first_collision(items, i).unwrap()].name,
                },
            )
        },
        None => None,
    }
}

/// `first_collision_below` finds the smallest colliding index, and finds one
/// wherever there is one.
pub proof fn lemma_first_collision(items: Seq<GeneratedText>, i: int, n: int)
    ensures
        match first_collision_below(items, i, n) {
            Some(j) => 0 <= j < n && collides(items, i, j) && forall|k: int|
                0 <= k < j ==> !collides(items, i, k),
            None => forall|k: int| 0 <= k < n ==> !collides(items, i, k),
        },
    decreases n,
{
    if n > 0 {
        lemma_first_collision(items, i, n - 1);
    }
}

/// `first_clashing_below` finds the smallest clashing index, and finds one
/// wherever there is one.
pub proof fn lemma_first_clashing(items: Seq<GeneratedText>, n: int)
    ensures
        match first_clashing_below(items, n) {
            Some(i) => 0 <= i < n && clashes(items, i) && forall|k: int|
                0 <= k < i ==> !clashes(items, k),
            None => forall|k: int| 0 <= k < n ==> !clashes(items, k),
        },
    decreases n,
{
    if n > 0 {
        lemma_first_clashing(items, n - 1);
    }
}

/// No two items share a name, and no two share a hash.
pub open spec fn all_distinct(items: Seq<GeneratedText>) -> bool {
    forall|i: int, j: int|
        0 <= i < items.len() && 0 <= j < items.len() && i != j ==> items[i].name != items[j].name
            && items[i].hash != items[j].hash
}

/// Items are accepted exactly when no two of them share a name or a hash.
pub proof fn lemma_accepted_iff_distinct(items: Seq<GeneratedText>)
    ensures
        first_clash(items) is None <==> all_distinct(items),
{
    let n = items.len() as int;
    lemma_first_clashing(items, n);
    if first_clash(items) is None {
        assert forall|i: int, j: int| 0 <= i < n && 0 <= j < n && i != j implies items[i].name
            != items[j].name && items[i].hash != items[j].hash by {
            assert(!clashes(items, i));
            lemma_first_collision(items, i, n);
            if items[i].name == items[j].name {
                assert(is_duplicate(items, i));
            } else if items[i].hash == items[j].hash {
                assert(collides(items, i, j));
            }
        }
    } else {
        let i = first_clashing_below(items, n).unwrap();
        assert(clashes(items, i));
        if is_duplicate(items, i) {
            let j = choose|j: int|
                0 <= j < items.len() && j != i && (#[trigger] items[j]).name == items[i].name;
            assert(items[i].name == items[j].name);
        } else {
            lemma_first_collision(items, i, n);
            let j = first_collision(items, i).unwrap();
            assert(collides(items, i, j));
            assert(items[i].hash == items[j].hash);
        }
    }
}

/// Two exported functions with the same name are refused.
pub proof fn lemma_same_name_refused(items: Seq<GeneratedText>, i: int, j: int)
    requires
        0 <= i < items.len(),
        0 <= j < items.len(),
        i != j,
        items[i].name == items[j].name,
    ensures
        first_clash(items) is Some,
{
    lemma_accepted_iff_distinct(items);
}

/// Two exported functions with different names and the same hash are refused.
pub proof fn lemma_collision_refused(items: Seq<GeneratedText>, i: int, j: int)
    requires
        0 <= i < items.len(),
        0 <= j < items.len(),
        items[i].name != items[j].name,
        items[i].hash == items[j].hash,
    ensures
        first_clash(items) is Some,
{
    lemma_accepted_iff_distinct(items);
}

/// The first export below `n` for which no forwarding function can be
/// written.
pub open spec fn first_unsupported_below(exports: Seq<ExportedFunction>, n: int) -> Option<int>
    decreases n,
{
    if n <= 0 {
        None
    } else {
        match first_unsupported_below(exports, n - 1) {
            Some(i) => Some(i),
            None => if !is_supported(exports[n - 1]) {
                Some(n - 1)
            } else {
                None
            },
        }
    }
}

/// The first export for which no forwarding function can be written.
pub open spec fn first_unsupported(exports: Seq<ExportedFunction>) -> Option<int> {
    first_unsupported_below(exports, exports.len() as int)
}

/// `first_unsupported_below` finds the smallest unsupported index, and finds
/// one wherever there is one.
pub proof fn lemma_first_unsupported(exports: Seq<ExportedFunction>, n: int)
    ensures
        match first_unsupported_below(exports, n) {
            Some(i) => 0 <= i < n && !is_supported(exports[i]) && forall|k: int|
                0 <= k < i ==> is_supported(#[trigger] exports[k]),
            None => forall|k: int| 0 <= k < n ==> is_supported(#[trigger] exports[k]),
        },
    decreases n,
{
    if n > 0 {
        lemma_first_unsupported(exports, n - 1);
    }
}

/// The first unsupported export of two lists in a row is that of the first
/// list, or else that of the second.
pub proof fn lemma_first_unsupported_concat(
    front: Seq<ExportedFunction>,
    back: Seq<ExportedFunction>,
)
    ensures
        first_unsupported(front + back) == match first_unsupported(front) {
            Some(i) => Some(i),
            None => match first_unsupported(back) {
                Some(j) => Some(front.len() + j),
                None => None,
            },
        },
{
    let all = front + back;
    lemma_first_unsupported(all, all.len() as int);
    lemma_first_unsupported(front, front.len() as int);
    lemma_first_unsupported(back, back.len() as int);
    assert forall|k: int| 0 <= k < front.len() implies all[k] == front[k] by {}
    assert forall|k: int| 0 <= k < back.len() implies all[front.len() + k] == back[k] by {}
    match first_unsupported(front) {
        Some(i) => {
            assert(all[i] == front[i]);
            match first_unsupported(all) {
                Some(a) => {
                    if a < i {
                        assert(all[a] == front[a]);
                    }
                },
                None => {},
            }
        },
        None => {
            match first_unsupported(back) {
                Some(j) => {
                    assert(all[front.len() + j] == back[j]);
                    match first_unsupported(all) {
                        Some(a) => {
                            if a < front.len() {
                                assert(all[a] == front[a]);
                            } else if a < front.len() + j {
                                assert(all[front.len() + (a - front.len())] == back[a
                                    - front.len()]);
                            }
                        },
                        None => {},
                    }
                },
                None => {
                    match first_unsupported(all) {
                        Some(a) => {
                            if a < front.len() {
                                assert(all[a] == front[a]);
                            } else {
                                assert(all[front.len() + (a - front.len())] == back[a
                                    - front.len()]);
                            }
                        },
                        None => {},
                    }
                },
            }
        },
    }
}

fn generate_item(exported: &TrustzoneExportedItem) -> (generated: Option<GeneratedItem>)
    ensures
        match generated {
            Some(item) => is_supported(exported.exported()) && item@ == generated_for(
                exported.exported(),
            ),
            None => !is_supported(exported.exported()),
        },
{
    let signature = exported.signature();
    let direction = exported.direction();
    let names = match signature.argument_names() {
        Some(names) => names,
        None => {
            return None;
        },
    };
    let name = signature.ident.clone();
    let hash = hash_vector_name(name.as_str());
    let mut message = match direction {
        Direction::SecureToNonSecure => String::from_str("Could not find the veneer of nonsecure '"),
        Direction::NonSecureToSecure => String::from_str("Could not find the veneer of secure '"),
    };
    message.append(name.as_str());
    message.append("'");
    let pointer_type = match direction {
        Direction::SecureToNonSecure => signature.pointer_type(
            Some("extern \"C-cmse-nonsecure-call\""),
        ),
        Direction::NonSecureToSecure => match &signature.abi {
            Some(abi) => signature.pointer_type(Some(abi.tokens.as_str())),
            None => signature.pointer_type(None),
        },
    };
    let mut item = String::from_str("pub ");
    item.append(signature.tokens.as_str());
    item.append(" { const HASH: u32 = ");
    item.append(decimal(hash).as_str());
    item.append("u32; let fn_ptr = ");
    match direction {
        Direction::SecureToNonSecure => {
            item.append("unsafe { super::find_ns_veneer(HASH) }");
        },
        Direction::NonSecureToSecure => {
            item.append("super::find_nsc_veneer(HASH)");
        },
    }
    item.append("; if fn_ptr.is_null() { panic!(");
    item.append(string_literal(message.as_str()).as_str());
    item.append("); } let fn_ptr = unsafe { core::mem::transmute::<_, ");
    item.append(pointer_type.as_str());
    item.append(">(((fn_ptr as usize) | 1) as *const u32) }; fn_ptr(");
    item.append(join(&names, ", ").as_str());
    item.append(") }");
    Some(GeneratedItem { item, name, hash })
}

fn child_path(prefix: &Vec<String>, name: &String) -> (path: Vec<String>)
    ensures
        views(path@) == views(prefix@).push(name@),
{
    let mut path: Vec<String> = Vec::new();
    let mut index: usize = 0;
    while index < prefix.len()
        invariant
            index <= prefix.len(),
            views(path@) == views(prefix@).take(index as int),
        decreases prefix.len() - index,
    {
        let ghost before = path@;
        let part = prefix[index].clone();
        path.push(part);
        index += 1;
        proof {
            lemma_views_push(before, part);
            assert(views(prefix@).take(index as int) == views(prefix@).take(index - 1).push(
                prefix@[index - 1]@,
            ));
        }
    }
    let ghost before = path@;
    let last = name.clone();
    path.push(last);
    proof {
        lemma_views_push(before, last);
        assert(views(prefix@).take(prefix.len() as int) == views(prefix@));
    }
    path
}

/// Appends the modules that a list of items declares without a body.
fn child_modules(items: &Vec<Item>, prefix: &Vec<String>, modules: &mut Vec<Vec<String>>)
    ensures
        paths(final(modules)@) == paths(old(modules)@) + external_modules(items@, views(prefix@)),
    decreases items,
{
    let mut index: usize = 0;
    while index < items.len()
        invariant
            index <= items.len(),
            paths(modules@) == paths(old(modules)@) + external_modules(
                items@.take(index as int),
                views(prefix@),
            ),
        decreases items.len() - index,
    {
        proof {
            let upto = items@.take(index as int + 1);
            assert(upto.drop_last() == items@.take(index as int));
            assert(upto.last() == items@[index as int]);
            assert(external_modules(upto, views(prefix@)) == external_modules(
                upto.drop_last(),
                views(prefix@),
            ) + external_modules_of(upto.last(), views(prefix@)));
        }
        let ghost before = modules@;
        match &items[index] {
            Item::Mod(module) => {
                let path = child_path(prefix, &module.ident);
                match &module.content {
                    Some(content) => {
                        child_modules(content, &path, modules);
                    },
                    None => {
                        modules.push(path);
                        proof {
                            assert(paths(modules@) =~= paths(before).push(views(path@)));
                        }
                    },
                }
            },
            _ => {},
        }
        proof {
            assert(paths(modules@) =~= paths(before) + external_modules_of(
                items@[index as int],
                views(prefix@),
            ));
        }
        index += 1;
    }
    proof {
        assert(items@.take(items.len() as int) == items@);
    }
}

/// Generates the forwarding functions for the exports of one file, appends
/// them to `generated_items` in the order of the source, and returns the
/// modules that the file declares without a body, each as the path of its
/// name: the modules with a body around it, then the module itself. Where a
/// forwarding function cannot be written for one of the exports, nothing is
/// appended.
pub fn generate_file_bindings(
    file: &SourceFile,
    generated_items: &mut Vec<GeneratedItem>,
) -> (modules: Result<Vec<Vec<String>>, BindingsError>)
    ensures
        match modules {
            Ok(modules) => {
                &&& first_unsupported(exports_of_items(file.items@)) is None
                &&& generated_texts(final(generated_items)@) == generated_texts(
                    old(generated_items)@,
                ) + generated_for_all(exports_of_items(file.items@))
                &&& paths(modules@) == external_modules(file.items@, Seq::empty())
            },
            Err(error) => {
                let exports = exports_of_items(file.items@);
                &&& first_unsupported(exports) is Some
                &&& error@ == Refusal::UnsupportedArgument {
                    function: exports[first_unsupported(exports).unwrap()].signature.ident@,
                }
                &&& final(generated_items)@ == old(generated_items)@
            },
        },
{
    let found_exported_items = TrustzoneExportedItem::find(&file.items);
    let ghost exports = exports_of_items(file.items@);
    let mut fresh: Vec<GeneratedItem> = Vec::new();
    let mut index: usize = 0;
    while index < found_exported_items.len()
        invariant
            index <= found_exported_items.len(),
            exports == exports_of_items(file.items@),
            exports_found(found_exported_items@) == exports,
            first_unsupported_below(exports, index as int) is None,
            generated_texts(fresh@) == generated_for_all(exports.take(index as int)),
        decreases found_exported_items.len() - index,
    {
        let exported_item = &found_exported_items[index];
        assert(exported_item.exported() == exports[index as int]);
        match generate_item(exported_item) {
            Some(item) => {
                let ghost before = fresh@;
                fresh.push(item);
                proof {
                    assert(generated_texts(fresh@) =~= generated_texts(before).push(item@));
                    assert(generated_for_all(exports.take(index as int + 1))
                        =~= generated_for_all(exports.take(index as int)).push(
                        generated_for(exports[index as int]),
                    ));
                }
            },
            None => {
                proof {
                    lemma_first_unsupported(exports, exports.len() as int);
                    lemma_first_unsupported(exports, index as int);
                    assert(first_unsupported(exports) == Some(index as int));
                }
                return Err(
                    BindingsError::UnsupportedArgument {
                        function: exported_item.signature().ident.clone(),
                    },
                );
            },
        }
        index += 1;
    }
    proof {
        assert(exports.take(exports.len() as int) == exports);
        assert(generated_texts(old(generated_items)@ + fresh@) =~= generated_texts(
            old(generated_items)@,
        ) + generated_texts(fresh@));
    }
    generated_items.append(&mut fresh);
    let mut modules: Vec<Vec<String>> = Vec::new();
    let prefix: Vec<String> = Vec::new();
    child_modules(&file.items, &prefix, &mut modules);
    proof {
        assert(views(prefix@) =~= Seq::<Seq<char>>::empty());
        assert(paths(modules@) =~= external_modules(file.items@, Seq::empty()));
    }
    Ok(modules)
}

proof fn lemma_first_clashing_is(items: Seq<GeneratedText>, i: int)
    requires
        0 <= i < items.len(),
        clashes(items, i),
        first_clashing_below(items, i) is None,
    ensures
        first_clashing_below(items, items.len() as int) == Some(i),
{
    lemma_first_clashing(items, items.len() as int);
    lemma_first_clashing(items, i);
}

proof fn lemma_first_collision_is(items: Seq<GeneratedText>, i: int, j: int)
    requires
        0 <= j < items.len(),
        collides(items, i, j),
        first_collision_below(items, i, j) is None,
    ensures
        first_collision(items, i) == Some(j),
{
    lemma_first_collision(items, i, items.len() as int);
    lemma_first_collision(items, i, j);
}

/// Checks that no two generated items share a name, and that no two with
/// different names share a hash. The first item that clashes with another
/// decides the refusal.
pub fn check_names(items: &Vec<GeneratedItem>) -> (checked: Result<(), BindingsError>)
    ensures
        match checked {
            Ok(()) => first_clash(generated_texts(items@)) is None,
            Err(error) => first_clash(generated_texts(items@)) == Some(error@),
        },
{
    let ghost texts = generated_texts(items@);
    let mut index: usize = 0;
    while index < items.len()
        invariant
            index <= items.len(),
            texts == generated_texts(items@),
            first_clashing_below(texts, index as int) is None,
        decreases items.len() - index,
    {
        let mut other: usize = 0;
        while other < items.len()
            invariant
                other <= items.len(),
                index < items.len(),
                texts == generated_texts(items@),
                first_clashing_below(texts, index as int) is None,
                forall|j: int|
                    0 <= j < other && j != index ==> (#[trigger] texts[j]).name
                        != texts[index as int].name,
            decreases items.len() - other,
        {
            if other != index && items[other].name == items[index].name {
                proof {
                    assert(texts[other as int].name == texts[index as int].name);
                    assert(is_duplicate(texts, index as int));
                    lemma_first_clashing_is(texts, index as int);
                }
                return Err(BindingsError::DuplicateName { name: items[index].name.clone() });
            }
            other += 1;
        }
        assert(!is_duplicate(texts, index as int));
        let mut other: usize = 0;
        while other < items.len()
            invariant
                other <= items.len(),
                index < items.len(),
                texts == generated_texts(items@),
                first_clashing_below(texts, index as int) is None,
                !is_duplicate(texts, index as int),
                first_collision_below(texts, index as int, other as int) is None,
            decreases items.len() - other,
        {
            if items[other].name != items[index].name && items[other].hash == items[index].hash {
                proof {
                    assert(collides(texts, index as int, other as int));
                    lemma_first_collision_is(texts, index as int, other as int);
                    lemma_first_clashing_is(texts, index as int);
                }
                return Err(
                    BindingsError::HashCollision {
                        name: items[index].name.clone(),
                        other_name: items[other].name.clone(),
                    },
                );
            }
            other += 1;
        }
        assert(!clashes(texts, index as int));
        index += 1;
    }
    Ok(())
}

/// What the secure image carries besides its forwarding functions: the
/// scanner of the non-secure vector table, the scanner of its own table of
/// veneers, the veneer through which the non-secure world reaches that
/// scanner, and the call that has the non-secure world set up its memory.
///
/// Both scanners read records of some bytes and a hash from the place that
/// the linker names. They differ from `vector_table::find` in three ways:
/// they pass over the first record, which holds the veneer of the scanner or
/// of the initializer; they stop at the first record whose hash is zero,
/// whatever its other bytes hold; and they return the address of the record
/// that carries the hash, not a pointer read from it.
pub const SECURE_RUNTIME: &'static str =
    "unsafe extern \"C\" fn find_ns_veneer(name_hash: u32) -> *const u32 { extern \"C\" { static _NS_VENEERS: u32; } let mut ns_veneers_ptr = (&_NS_VENEERS as *const u32 as *const ([u8; 4], u32)).offset(1); loop { let (_, vector_hash) = *ns_veneers_ptr; if vector_hash == 0 { return core::ptr::null(); } if vector_hash == name_hash { return ns_veneers_ptr as _; } ns_veneers_ptr = ns_veneers_ptr.offset(1); } } #[no_mangle] #[cmse_nonsecure_entry] unsafe extern \"C\" fn find_nsc_veneer(name_hash: u32) -> *const u32 { extern \"C\" { static _NSC_VENEERS: u32; } let mut nsc_veneers_ptr = (&_NSC_VENEERS as *const u32 as *const ([u8; 8], u32)).offset(1); loop { let (_, vector_hash) = *nsc_veneers_ptr; if vector_hash == 0 { return core::ptr::null(); } if vector_hash == name_hash { return nsc_veneers_ptr as _; } nsc_veneers_ptr = nsc_veneers_ptr.offset(1); } } core::arch::global_asm!(\".section .nsc_veneers.searcher, \\\"ax\\\"\", \".global searcher_veneer\", \".thumb_func\", \"searcher_veneer:\", \"SG\", \"B.w find_nsc_veneer\", \".4byte 0\"); #[no_mangle] unsafe extern \"C\" fn initialize_ns_data() { extern \"C\" { static _NS_VENEERS: u32; } let initializer_veneer_ptr = (&_NS_VENEERS as *const u32 as usize | 1) as *const u32; let initializer_veneer_ptr = core::mem::transmute::<_, extern \"C-cmse-nonsecure-call\" fn()>(initializer_veneer_ptr); initializer_veneer_ptr() }";

/// What the non-secure image carries besides its forwarding functions: the
/// call into the secure world's scanner, and the veneer through which the
/// secure world has it set up its memory.
pub const NONSECURE_RUNTIME: &'static str =
    "extern \"C\" fn find_nsc_veneer(hash: u32) -> *const u32 { extern \"C\" { static _NSC_VENEERS: u32; } unsafe { let searcher_veneer_ptr = (&_NSC_VENEERS as *const u32 as usize | 1) as *const u32; let searcher_veneer_ptr = core::mem::transmute::<_, extern \"C\" fn(u32) -> *const u32>(searcher_veneer_ptr); searcher_veneer_ptr(hash) } } core::arch::global_asm!(\".section .ns_veneers.initializer, \\\"ax\\\"\", \".global initializer_veneer\", \".thumb_func\", \"initializer_veneer:\", \"B.w initialize_ns_data\", \".4byte 0\");";

/// The runtime support of an image.
pub open spec fn runtime_text(secure: bool) -> Seq<char> {
    if secure {
        SECURE_RUNTIME@
    } else {
        NONSECURE_RUNTIME@
    }
}

/// The forwarding functions of a list of generated items.
pub open spec fn item_texts(items: Seq<GeneratedText>) -> Seq<Seq<char>> {
    Seq::new(items.len(), |i: int| items[i].item)
}

/// The generated file: the module `trustzone_bindings` with one forwarding
/// function for each item, in order, and behind it the runtime support of the
/// image.
pub open spec fn bindings_text(items: Seq<GeneratedText>, secure: bool) -> Seq<char> {
    "pub mod trustzone_bindings { "@ + joined_text(item_texts(items), " "@) + " } "@
        + runtime_text(secure)
}

/// Writes the generated file for a list of generated items.
pub fn write_bindings(items: &Vec<GeneratedItem>, secure: bool) -> (text: String)
    ensures
        text@ == bindings_text(generated_texts(items@), secure),
{
    let mut stubs: Vec<String> = Vec::new();
    let mut index: usize = 0;
    while index < items.len()
        invariant
            index <= items.len(),
            views(stubs@) == item_texts(generated_texts(items@)).take(index as int),
        decreases items.len() - index,
    {
        let ghost before = stubs@;
        let stub = items[index].item.clone();
        stubs.push(stub);
        proof {
            lemma_views_push(before, stub);
            assert(item_texts(generated_texts(items@)).take(index as int + 1) == item_texts(
                generated_texts(items@),
            ).take(index as int).push(items@[index as int].item@));
        }
        index += 1;
    }
    proof {
        let all = item_texts(generated_texts(items@));
        assert(all.take(items.len() as int) == all);
    }
    let mut text = String::from_str("pub mod trustzone_bindings { ");
    text.append(join(&stubs, " ").as_str());
    text.append(" } ");
    if secure {
        text.append(SECURE_RUNTIME);
    } else {
        text.append(NONSECURE_RUNTIME);
    }
    text
}

/// The exports of a list of files, file after file.
pub open spec fn exports_of_files(files: Seq<SourceFile>) -> Seq<ExportedFunction>
    decreases files.len(),
{
    if files.len() == 0 {
        Seq::empty()
    } else {
        exports_of_files(files.drop_last()) + exports_of_items(files.last().items@)
    }
}

/// Why a list of exports is refused, if it is: for the first export that no
/// forwarding function can be written for, or else for the first clash of
/// names or hashes.
pub open spec fn refusal_of(exports: Seq<ExportedFunction>) -> Option<Refusal> {
    match first_unsupported(exports) {
        Some(i) => Some(Refusal::UnsupportedArgument { function: exports[i].signature.ident@ }),
        None => first_clash(generated_for_all(exports)),
    }
}

/// Checks the generated items of a whole source tree and writes the
/// generated file.
pub fn finish_bindings(items: &Vec<GeneratedItem>, secure: bool) -> (written: Result<
    String,
    BindingsError,
>)
    ensures
        match written {
            Ok(text) => first_clash(generated_texts(items@)) is None && text@ == bindings_text(
                generated_texts(items@),
                secure,
            ),
            Err(error) => first_clash(generated_texts(items@)) == Some(error@),
        },
{
    match check_names(items) {
        Ok(()) => Ok(write_bindings(items, secure)),
        Err(error) => Err(error),
    }
}

/// Generates the bindings of a source tree whose files were read and parsed
/// in the order in which the tree is walked: the forwarding functions of all
/// exports, in that order, in one module, with the runtime support of the
/// secure or of the non-secure image.
pub fn generate_bindings(files: &Vec<SourceFile>, secure: bool) -> (written: Result<
    String,
    BindingsError,
>)
    ensures
        match written {
            Ok(text) => {
                &&& refusal_of(exports_of_files(files@)) is None
                &&& text@ == bindings_text(generated_for_all(exports_of_files(files@)), secure)
            },
            Err(error) => refusal_of(exports_of_files(files@)) == Some(error@),
        },
{
    let mut generated_items: Vec<GeneratedItem> = Vec::new();
    let mut index: usize = 0;
    while index < files.len()
        invariant
            index <= files.len(),
            first_unsupported(exports_of_files(files@.take(index as int))) is None,
            generated_texts(generated_items@) == generated_for_all(
                exports_of_files(files@.take(index as int)),
            ),
        decreases files.len() - index,
    {
        let ghost done = exports_of_files(files@.take(index as int));
        let ghost here = exports_of_items(files@[index as int].items@);
        proof {
            let upto = files@.take(index as int + 1);
            assert(upto.drop_last() == files@.take(index as int));
            assert(upto.last() == files@[index as int]);
            assert(exports_of_files(upto) == done + here);
            lemma_first_unsupported_concat(done, here);
            lemma_exports_prefix(files@, index as int + 1);
        }
        match generate_file_bindings(&files[index], &mut generated_items) {
            Ok(_) => {
                proof {
                    assert(generated_for_all(done + here) =~= generated_for_all(done)
                        + generated_for_all(here));
                }
            },
            Err(error) => {
                proof {
                    let all = exports_of_files(files@);
                    let rest = all.skip((done + here).len() as int);
                    assert(all == (done + here) + rest);
                    lemma_first_unsupported_concat(done + here, rest);
                    let i = first_unsupported(here).unwrap();
                    lemma_first_unsupported(here, here.len() as int);
                    assert(all[done.len() + i] == here[i]);
                }
                return Err(error);
            },
        }
        index += 1;
    }
    proof {
        assert(files@.take(files.len() as int) == files@);
    }
    finish_bindings(&generated_items, secure)
}

/// The exports of the first files of a list stand at the front of the exports
/// of the whole list.
proof fn lemma_exports_prefix(files: Seq<SourceFile>, n: int)
    requires
        0 <= n <= files.len(),
    ensures
        exports_of_files(files.take(n)).len() <= exports_of_files(files).len(),
        exports_of_files(files) == exports_of_files(files.take(n)) + exports_of_files(files).skip(
            exports_of_files(files.take(n)).len() as int,
        ),
    decreases files.len() - n,
{
    if n == files.len() {
        assert(files.take(n) == files);
        assert(exports_of_files(files) =~= exports_of_files(files) + exports_of_files(files).skip(
            exports_of_files(files).len() as int,
        ));
    } else {
        lemma_exports_prefix(files, n + 1);
        let upto = files.take(n + 1);
        assert(upto.drop_last() == files.take(n));
        let front = exports_of_files(files.take(n));
        let next = exports_of_files(upto);
        let all = exports_of_files(files);
        assert(next == front + exports_of_items(upto.last().items@));
        assert(all =~= front + all.skip(front.len() as int));
    }
}

/// Exports with names that differ, with hashes that differ, and with
/// arguments that can be passed on are accepted, and one item is generated
/// for each of them: its forwarding function, with its name and the hash of
/// its name. No two of the items share a name or a hash.
pub proof fn lemma_one_item_for_each_export(exports: Seq<ExportedFunction>)
    requires
        forall|i: int| 0 <= i < exports.len() ==> is_supported(#[trigger] exports[i]),
        forall|i: int, j: int|
            0 <= i < exports.len() && 0 <= j < exports.len() && i != j ==> (
            #[trigger] exports[i]).signature.ident@ != (#[trigger] exports[j]).signature.ident@,
        forall|i: int, j: int|
            0 <= i < exports.len() && 0 <= j < exports.len() && i != j ==> name_hash(
                (#[trigger] exports[i]).signature.ident@,
            ) != name_hash((#[trigger] exports[j]).signature.ident@),
    ensures
        refusal_of(exports) is None,
        generated_for_all(exports).len() == exports.len(),
        forall|i: int|
            0 <= i < exports.len() ==> (#[trigger] generated_for_all(exports)[i]) == generated_for(
                exports[i],
            ),
        all_distinct(generated_for_all(exports)),
{
    let items = generated_for_all(exports);
    lemma_first_unsupported(exports, exports.len() as int);
    assert forall|i: int, j: int|
        0 <= i < items.len() && 0 <= j < items.len() && i != j implies items[i].name
        != items[j].name && items[i].hash != items[j].hash by {
        assert(items[i] == generated_for(exports[i]));
        assert(items[j] == generated_for(exports[j]));
    }
    lemma_accepted_iff_distinct(items);
}

/// Whatever is accepted has one item for each export, and no two items share
/// a name or a hash.
pub proof fn lemma_accepted_exports_are_distinct(exports: Seq<ExportedFunction>)
    requires
        refusal_of(exports) is None,
    ensures
        generated_for_all(exports).len() == exports.len(),
        all_distinct(generated_for_all(exports)),
{
    lemma_accepted_iff_distinct(generated_for_all(exports));
}

/// The rows that the linker lays out for a list of generated items: each
/// item's hash beside the address that the linker gave its function.
pub open spec fn linked_rows(items: Seq<GeneratedText>, pointers: Seq<usize>) -> Seq<(usize, u32)> {
    Seq::new(items.len(), |i: int| (pointers[i], items[i].hash))
}

/// What the build accepts, the other world finds: in the table that holds
/// one row for each accepted item, a search for the hash of any item returns
/// the address of that item's function.
pub proof fn lemma_accepted_items_are_found(
    items: Seq<GeneratedText>,
    pointers: Seq<usize>,
    i: int,
)
    requires
        first_clash(items) is None,
        pointers.len() == items.len(),
        forall|k: int| 0 <= k < pointers.len() ==> #[trigger] pointers[k] != 0,
        0 <= i < items.len(),
    ensures
        lookup(table_of(linked_rows(items, pointers)), items[i].hash) == Some(pointers[i]),
{
    lemma_accepted_iff_distinct(items);
    let rows = linked_rows(items, pointers);
    assert forall|k: int| 0 <= k < rows.len() implies (#[trigger] rows[k]).0 != 0 by {
        assert(pointers[k] != 0);
    }
    assert forall|a: int, b: int|
        0 <= a < rows.len() && 0 <= b < rows.len() && a != b implies (#[trigger] rows[a]).1 != (
    #[trigger] rows[b]).1 by {
        assert(items[a].hash != items[b].hash);
    }
    lemma_built_table_finds_rows(rows);
    assert(rows[i].1 == items[i].hash);
}

} // verus!
