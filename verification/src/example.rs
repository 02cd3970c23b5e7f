//! A small application of the two worlds. The secure world offers `return_5`
//! and `double`; the non-secure world keeps a few numbers and offers
//! functions that write and read them. `write_thing` reaches the two secure
//! functions the way every forwarding function does: by the hash of the
//! name, through the secure world's table of veneers.

use crate::hash::{hash_vector_name, name_hash};
use crate::vector_table::{
    find, lemma_live_len_is, lemma_lookup_finds_row, live_rows, lookup, VectorTableEntry,
};
use vstd::prelude::*;

verus! {

/// Where the veneer of `return_5` stands in the secure image.
pub const RETURN_5_POINTER: usize = 0x0000_7F01;

/// Where the veneer of `double` stands in the secure image.
pub const DOUBLE_POINTER: usize = 0x0000_7F0D;

/// Always five.
pub fn return_5() -> (five: u32)
    ensures
        five == 5,
{
    5
}

/// Twice the argument.
pub fn double(x: u32) -> (twice: u32)
    requires
        2 * x <= u32::MAX,
    ensures
        twice == 2 * x,
{
    x * 2
}

/// What the secure world returns for a call through a pointer: the result of
/// the function whose veneer stands there. A pointer to no veneer, and a call
/// whose result does not fit, return nothing.
pub open spec fn secure_result(pointer: usize, argument: u32) -> Option<u32> {
    if pointer == RETURN_5_POINTER {
        Some(5u32)
    } else if pointer == DOUBLE_POINTER && 2 * argument <= u32::MAX {
        Some((2 * argument) as u32)
    } else {
        None
    }
}

/// Calls into the secure world through a pointer.
pub fn call_secure(pointer: usize, argument: u32) -> (result: Option<u32>)
    ensures
        result == secure_result(pointer, argument),
{
    if pointer == RETURN_5_POINTER {
        Some(return_5())
    } else if pointer == DOUBLE_POINTER && argument <= u32::MAX / 2 {
        Some(double(argument))
    } else {
        None
    }
}

/// The secure world's table of veneers.
pub open spec fn secure_veneer_rows() -> Seq<VectorTableEntry> {
    seq![
        VectorTableEntry { function_pointer: RETURN_5_POINTER, name_hash: name_hash("return_5"@) },
        VectorTableEntry { function_pointer: DOUBLE_POINTER, name_hash: name_hash("double"@) },
        VectorTableEntry { function_pointer: 0, name_hash: 0 },
    ]
}

/// Builds the secure world's table of veneers: one row for each of its two
/// functions, and the sentinel.
pub fn secure_veneers() -> (table: Vec<VectorTableEntry>)
    ensures
        table@ == secure_veneer_rows(),
{
    let mut table: Vec<VectorTableEntry> = Vec::new();
    table.push(VectorTableEntry::new(RETURN_5_POINTER, hash_vector_name("return_5")));
    table.push(VectorTableEntry::new(DOUBLE_POINTER, hash_vector_name("double")));
    table.push(VectorTableEntry::sentinel());
    assert(table@ =~= secure_veneer_rows());
    table
}

/// What a call by name returns: the function is looked up by the hash of its
/// name and called through the pointer that the table gives.
pub open spec fn forwarded(table: Seq<VectorTableEntry>, name: Seq<char>, argument: u32) -> Option<
    u32,
> {
    match lookup(table, name_hash(name)) {
        Some(pointer) => secure_result(pointer, argument),
        None => None,
    }
}

/// Calls a function of the secure world by its name.
pub fn forward(table: &[VectorTableEntry], name: &str, argument: u32) -> (result: Option<u32>)
    ensures
        result == forwarded(table@, name@, argument),
{
    match find(table, hash_vector_name(name)) {
        Some(pointer) => call_secure(pointer, argument),
        None => None,
    }
}

/// What `write_thing` stores for a value: twice the sum of the value and of
/// what `return_5` returns. Nothing where a call fails or the sum does not
/// fit.
pub open spec fn thing_for(table: Seq<VectorTableEntry>, val: u32) -> Option<u32> {
    match forwarded(table, "return_5"@, 0) {
        Some(five) => if val + five <= u32::MAX {
            forwarded(table, "double"@, (val + five) as u32)
        } else {
            None
        },
        None => None,
    }
}

/// The numbers that the non-secure world keeps.
#[derive(Debug)]
pub struct NonSecureState {
    thing: u32,
    private_thing: u32,
    public_thing: u32,
}

impl NonSecureState {
    pub closed spec fn thing(self) -> u32 {
        self.thing
    }

    pub closed spec fn private_thing(self) -> u32 {
        self.private_thing
    }

    pub closed spec fn public_thing(self) -> u32 {
        self.public_thing
    }

    /// The numbers as the image starts with them.
    pub fn new() -> (state: NonSecureState)
        ensures
            state.thing() == 99,
            state.private_thing() == 102,
            state.public_thing() == 101,
    {
        NonSecureState { thing: 99, private_thing: 102, public_thing: 101 }
    }

    fn set_thing(&mut self, thing: u32)
        ensures
            final(self).thing() == thing,
            final(self).private_thing() == old(self).private_thing(),
            final(self).public_thing() == old(self).public_thing(),
    {
        self.thing = thing;
    }
}

/// Stores twice the sum of `val` and of what the secure world's `return_5`
/// returns, computed by the secure world's `double`. Where one of the two
/// calls fails, nothing is stored.
pub fn write_thing(state: &mut NonSecureState, veneers: &[VectorTableEntry], val: u32) -> (stored:
    bool)
    ensures
        match thing_for(veneers@, val) {
            Some(thing) => stored && final(state).thing() == thing,
            None => !stored && final(state).thing() == old(state).thing(),
        },
        final(state).private_thing() == old(state).private_thing(),
        final(state).public_thing() == old(state).public_thing(),
{
    let five = match forward(veneers, "return_5", 0) {
        Some(five) => five,
        None => {
            return false;
        },
    };
    if val > u32::MAX - five {
        return false;
    }
    match forward(veneers, "double", val + five) {
        Some(thing) => {
            state.set_thing(thing);
            true
        },
        None => false,
    }
}

pub fn read_thing(state: &NonSecureState) -> (thing: u32)
    ensures
        thing == state.thing(),
{
    state.thing
}

pub fn write_private_thing(state: &mut NonSecureState, val: u32)
    ensures
        final(state).private_thing() == val,
        final(state).thing() == old(state).thing(),
        final(state).public_thing() == old(state).public_thing(),
{
    state.private_thing = val;
}

pub fn read_private_thing(state: &NonSecureState) -> (thing: u32)
    ensures
        thing == state.private_thing(),
{
    state.private_thing
}

pub fn write_public_thing(state: &mut NonSecureState, val: u32)
    ensures
        final(state).public_thing() == val,
        final(state).thing() == old(state).thing(),
        final(state).private_thing() == old(state).private_thing(),
{
    state.public_thing = val;
}

pub fn read_public_thing(state: &NonSecureState) -> (thing: u32)
    ensures
        thing == state.public_thing(),
{
    state.public_thing
}

/// Where the two secure functions have different hashes, `write_thing`
/// stores twice the sum of its argument and five.
pub proof fn lemma_thing_is_doubled_sum(val: u32)
    requires
        2 * (val + 5) <= u32::MAX,
    ensures
        name_hash("return_5"@) != name_hash("double"@) ==> thing_for(secure_veneer_rows(), val)
            == Some((2 * (val + 5)) as u32),
{
    if name_hash("return_5"@) == name_hash("double"@) {
        return ;
    }
    let table = secure_veneer_rows();
    lemma_live_len_is(table, 2);
    let rows = live_rows(table);
    assert(rows[0] == table[0] && rows[1] == table[1]);
    lemma_lookup_finds_row(table, 0);
    lemma_lookup_finds_row(table, 1);
}

} // verus!
