//! The table through which one world finds the functions of the other: rows of
//! a function pointer and the hash of the function's name, closed by a row of
//! zeroes.

use vstd::prelude::*;

verus! {

/// One row of a vector table.
#[derive(Clone, Copy, Debug, PartialEq, Eq, Structural)]
pub struct VectorTableEntry {
    pub function_pointer: usize,
    pub name_hash: u32,
}

impl VectorTableEntry {
    /// The row that closes a table: pointer and hash are both zero.
    pub open spec fn is_sentinel(self) -> bool {
        self.function_pointer == 0 && self.name_hash == 0
    }

    pub fn new(function_pointer: usize, name_hash: u32) -> (entry: VectorTableEntry)
        ensures
            entry.function_pointer == function_pointer,
            entry.name_hash == name_hash,
    {
        VectorTableEntry { function_pointer, name_hash }
    }

    pub fn sentinel() -> (entry: VectorTableEntry)
        ensures
            entry.is_sentinel(),
    {
        VectorTableEntry { function_pointer: 0, name_hash: 0 }
    }

    pub fn is_end(&self) -> (end: bool)
        ensures
            end == self.is_sentinel(),
    {
        self.function_pointer == 0 && self.name_hash == 0
    }
}

/// How many rows stand before the first sentinel. A table without a sentinel
/// is read to its end.
pub open spec fn live_len(table: Seq<VectorTableEntry>) -> nat
    decreases table.len(),
{
    if table.len() == 0 || table[0].is_sentinel() {
        0
    } else {
        1 + live_len(table.drop_first())
    }
}

/// The rows that a search can reach.
pub open spec fn live_rows(table: Seq<VectorTableEntry>) -> Seq<VectorTableEntry> {
    table.take(live_len(table) as int)
}

/// The index of the first reachable row that carries `hash`, if there is one.
pub open spec fn position_of(table: Seq<VectorTableEntry>, hash: u32) -> Option<int> {
    let rows = live_rows(table);
    if exists|i: int| 0 <= i < rows.len() && rows[i].name_hash == hash {
        Some(
            choose|i: int|
                0 <= i < rows.len() && rows[i].name_hash == hash && forall|j: int|
                    0 <= j < i ==> rows[j].name_hash != hash,
        )
    } else {
        None
    }
}

/// What a search for `hash` returns: the pointer of the first reachable row
/// with that hash.
pub open spec fn lookup(table: Seq<VectorTableEntry>, hash: u32) -> Option<usize> {
    match position_of(table, hash) {
        Some(i) => Some(table[i].function_pointer),
        None => None,
    }
}

/// No two reachable rows share a hash.
pub open spec fn distinct_hashes(table: Seq<VectorTableEntry>) -> bool {
    let rows = live_rows(table);
    forall|i: int, j: int|
        0 <= i < rows.len() && 0 <= j < rows.len() && i != j ==> rows[i].name_hash
            != rows[j].name_hash
}

/// A table as the build emits it: closed by a sentinel, with distinct hashes.
pub open spec fn well_formed(table: Seq<VectorTableEntry>) -> bool {
    &&& live_len(table) < table.len()
    &&& distinct_hashes(table)
}

/// `live_len` is the position of the first sentinel, or the length of a table
/// that has none.
pub proof fn lemma_live_len(table: Seq<VectorTableEntry>)
    ensures
        live_len(table) <= table.len(),
        forall|i: int| 0 <= i < live_len(table) ==> !(#[trigger] table[i]).is_sentinel(),
        live_len(table) < table.len() ==> table[live_len(table) as int].is_sentinel(),
    decreases table.len(),
{
    if table.len() == 0 || table[0].is_sentinel() {
    } else {
        let rest = table.drop_first();
        lemma_live_len(rest);
        assert forall|i: int| 0 <= i < live_len(table) implies !(
        #[trigger] table[i]).is_sentinel() by {
            if i > 0 {
                assert(table[i] == rest[i - 1]);
            }
        }
        if live_len(table) < table.len() {
            assert(table[live_len(table) as int] == rest[live_len(rest) as int]);
        }
    }
}

/// A prefix without a sentinel, followed by a sentinel or by the end of the
/// table, is the reachable part.
pub proof fn lemma_live_len_is(table: Seq<VectorTableEntry>, n: int)
    requires
        0 <= n <= table.len(),
        forall|i: int| 0 <= i < n ==> !(#[trigger] table[i]).is_sentinel(),
        n == table.len() || table[n].is_sentinel(),
    ensures
        live_len(table) == n,
{
    lemma_live_len(table);
    let m = live_len(table) as int;
    if m < n {
        assert(table[m].is_sentinel());
    } else if m > n {
        assert(!table[n].is_sentinel());
    }
}

/// What `position_of` picks is the first reachable row with the hash.
pub proof fn lemma_position_of(table: Seq<VectorTableEntry>, hash: u32)
    ensures
        match position_of(table, hash) {
            Some(i) => {
                &&& 0 <= i < live_len(table)
                &&& i < table.len()
                &&& table[i].name_hash == hash
                &&& forall|j: int| 0 <= j < i ==> (#[trigger] table[j]).name_hash != hash
            },
            None => forall|j: int|
                0 <= j < live_len(table) ==> (#[trigger] table[j]).name_hash != hash,
        },
{
    lemma_live_len(table);
    let rows = live_rows(table);
    assert(rows.len() == live_len(table));
    assert forall|j: int| 0 <= j < rows.len() implies rows[j] == table[j] by {}
    if exists|i: int| 0 <= i < rows.len() && rows[i].name_hash == hash {
        let w = choose|i: int| 0 <= i < rows.len() && rows[i].name_hash == hash;
        lemma_first_match(rows, hash, w);
        let i = position_of(table, hash).unwrap();
        assert(0 <= i < rows.len() && rows[i].name_hash == hash && forall|j: int|
            0 <= j < i ==> rows[j].name_hash != hash);
        assert forall|j: int| 0 <= j < i implies (#[trigger] table[j]).name_hash != hash by {
            assert(rows[j] == table[j]);
        }
    } else {
        assert forall|j: int| 0 <= j < live_len(table) implies (#[trigger] table[j]).name_hash
            != hash by {
            assert(rows[j] == table[j]);
        }
    }
}

proof fn lemma_first_match(rows: Seq<VectorTableEntry>, hash: u32, w: int)
    requires
        0 <= w < rows.len(),
        rows[w].name_hash == hash,
    ensures
        exists|i: int|
            0 <= i < rows.len() && rows[i].name_hash == hash && forall|j: int|
                0 <= j < i ==> rows[j].name_hash != hash,
    decreases w,
{
    if exists|k: int| 0 <= k < w && rows[k].name_hash == hash {
        let k = choose|k: int| 0 <= k < w && rows[k].name_hash == hash;
        lemma_first_match(rows, hash, k);
    } else {
        assert(0 <= w < rows.len() && rows[w].name_hash == hash && forall|j: int|
            0 <= j < w ==> rows[j].name_hash != hash);
    }
}

/// A reachable row with the hash, before which no row has it, is what the
/// search returns.
pub proof fn lemma_lookup_first(table: Seq<VectorTableEntry>, hash: u32, i: int)
    requires
        0 <= i < live_len(table),
        table[i].name_hash == hash,
        forall|j: int| 0 <= j < i ==> (#[trigger] table[j]).name_hash != hash,
    ensures
        position_of(table, hash) == Some(i),
        lookup(table, hash) == Some(table[i].function_pointer),
{
    lemma_live_len(table);
    lemma_position_of(table, hash);
    let rows = live_rows(table);
    assert(rows[i] == table[i]);
    match position_of(table, hash) {
        Some(p) => {
            if p < i {
                assert(table[p].name_hash != hash);
            } else if p > i {
                assert(table[i].name_hash != hash);
            }
        },
        None => {
            assert(table[i].name_hash != hash);
        },
    }
}

/// In a table with distinct hashes, searching for the hash of any reachable
/// row returns that row's pointer.
pub proof fn lemma_lookup_finds_row(table: Seq<VectorTableEntry>, i: int)
    requires
        distinct_hashes(table),
        0 <= i < live_len(table),
    ensures
        lookup(table, table[i].name_hash) == Some(table[i].function_pointer),
{
    lemma_live_len(table);
    let rows = live_rows(table);
    let hash = table[i].name_hash;
    assert(rows[i] == table[i]);
    assert forall|j: int| 0 <= j < i implies (#[trigger] table[j]).name_hash != hash by {
        assert(rows[j] == table[j]);
    }
    lemma_lookup_first(table, hash, i);
}

/// A hash that no reachable row carries is not found.
pub proof fn lemma_lookup_absent(table: Seq<VectorTableEntry>, hash: u32)
    requires
        forall|i: int| 0 <= i < live_len(table) ==> (#[trigger] table[i]).name_hash != hash,
    ensures
        lookup(table, hash) is None,
{
    lemma_position_of(table, hash);
}

/// A table of two rows and a sentinel answers with the first pointer for the
/// first hash, with the second pointer for the second hash, and with nothing
/// for every other hash.
pub proof fn lemma_two_row_table(first: VectorTableEntry, second: VectorTableEntry, other: u32)
    requires
        !first.is_sentinel(),
        !second.is_sentinel(),
        first.name_hash != second.name_hash,
        other != first.name_hash,
        other != second.name_hash,
    ensures
        ({
            let table = seq![first, second, VectorTableEntry { function_pointer: 0, name_hash: 0 }];
            &&& well_formed(table)
            &&& lookup(table, first.name_hash) == Some(first.function_pointer)
            &&& lookup(table, second.name_hash) == Some(second.function_pointer)
            &&& lookup(table, other) is None
        }),
{
    let table = seq![first, second, VectorTableEntry { function_pointer: 0, name_hash: 0 }];
    lemma_live_len_is(table, 2);
    let rows = live_rows(table);
    assert(rows.len() == 2);
    assert(rows[0] == first && rows[1] == second);
    lemma_lookup_finds_row(table, 0);
    lemma_lookup_finds_row(table, 1);
    lemma_lookup_absent(table, other);
}

/// Searches a vector table for the row that carries `name_hash` and returns
/// its function pointer. The scan runs from the first row and stops at the
/// first sentinel, or at the end of the slice.
///
/// The scanners that the generated bindings carry into an image read the
/// table where the linker put it, and differ from this search in three
/// ways. They pass over the first record, which holds the veneer of the
/// scanner or of the initializer and no exported function. They stop at the
/// first record whose hash is zero, whatever stands before the hash, so that
/// a function whose name hashes to zero cannot be found by them. And they
/// return the address of the record, which is the veneer itself, where this
/// search returns the pointer that the row holds.
#[inline(never)]
pub fn find(table: &[VectorTableEntry], name_hash: u32) -> (found: Option<usize>)
    ensures
        found == lookup(table@, name_hash),
{
    proof {
        lemma_live_len(table@);
    }
    let mut index: usize = 0;
    while index < table.len()
        invariant
            index <= live_len(table@) <= table@.len(),
            forall|j: int| 0 <= j < index ==> (#[trigger] table@[j]).name_hash != name_hash,
            forall|j: int| 0 <= j < live_len(table@) ==> !(#[trigger] table@[j]).is_sentinel(),
            live_len(table@) < table@.len() ==> table@[live_len(table@) as int].is_sentinel(),
        decreases table.len() - index,
    {
        let row = &table[index];
        if row.is_end() {
            proof {
                assert(index == live_len(table@)) by {
                    if index < live_len(table@) {
                        assert(!table@[index as int].is_sentinel());
                    }
                }
                lemma_lookup_absent(table@, name_hash);
            }
            return None;
        }
        if row.name_hash == name_hash {
            proof {
                assert(index < live_len(table@)) by {
                    if index == live_len(table@) {
                        assert(table@[index as int].is_sentinel());
                    }
                }
                lemma_lookup_first(table@, name_hash, index as int);
            }
            return Some(row.function_pointer);
        }
        proof {
            assert(index < live_len(table@)) by {
                if index == live_len(table@) {
                    assert(table@[index as int].is_sentinel());
                }
            }
        }
        index += 1;
    }
    proof {
        lemma_lookup_absent(table@, name_hash);
    }
    None
}

/// The table that is built from rows of a pointer and a hash: the rows in
/// order, closed by the sentinel.
pub open spec fn table_of(rows: Seq<(usize, u32)>) -> Seq<VectorTableEntry> {
    Seq::new(
        rows.len(),
        |i: int| VectorTableEntry { function_pointer: rows[i].0, name_hash: rows[i].1 },
    ).push(VectorTableEntry { function_pointer: 0, name_hash: 0 })
}

/// Builds a vector table as the linker lays it out: one row for each pair of
/// a pointer and a hash, in order, and the sentinel behind them.
pub fn build_table(rows: &[(usize, u32)]) -> (table: Vec<VectorTableEntry>)
    ensures
        table@ == table_of(rows@),
{
    let mut table: Vec<VectorTableEntry> = Vec::new();
    let mut index: usize = 0;
    while index < rows.len()
        invariant
            index <= rows.len(),
            table@ == Seq::new(
                index as nat,
                |i: int| VectorTableEntry { function_pointer: rows@[i].0, name_hash: rows@[i].1 },
            ),
        decreases rows.len() - index,
    {
        let (function_pointer, name_hash) = rows[index];
        table.push(VectorTableEntry::new(function_pointer, name_hash));
        index += 1;
        assert(table@ =~= Seq::new(
            index as nat,
            |i: int| VectorTableEntry { function_pointer: rows@[i].0, name_hash: rows@[i].1 },
        ));
    }
    table.push(VectorTableEntry::sentinel());
    assert(table@ =~= table_of(rows@));
    table
}

/// A table built from rows with distinct hashes and pointers other than zero
/// is well formed, and a search finds every row by its hash.
pub proof fn lemma_built_table_finds_rows(rows: Seq<(usize, u32)>)
    requires
        forall|i: int| 0 <= i < rows.len() ==> (#[trigger] rows[i]).0 != 0,
        forall|i: int, j: int|
            0 <= i < rows.len() && 0 <= j < rows.len() && i != j ==> (#[trigger] rows[i]).1 != (
            #[trigger] rows[j]).1,
    ensures
        well_formed(table_of(rows)),
        live_len(table_of(rows)) == rows.len(),
        forall|i: int|
            0 <= i < rows.len() ==> lookup(table_of(rows), (#[trigger] rows[i]).1) == Some(
                rows[i].0,
            ),
        forall|hash: u32|
            (forall|i: int| 0 <= i < rows.len() ==> (#[trigger] rows[i]).1 != hash) ==> lookup(
                table_of(rows),
                hash,
            ) is None,
{
    let table = table_of(rows);
    let n = rows.len() as int;
    assert forall|i: int| 0 <= i < n implies !(#[trigger] table[i]).is_sentinel() by {
        assert(rows[i].0 != 0);
    }
    lemma_live_len_is(table, n);
    let live = live_rows(table);
    assert forall|i: int, j: int|
        0 <= i < live.len() && 0 <= j < live.len() && i != j implies live[i].name_hash
        != live[j].name_hash by {
        assert(live[i].name_hash == rows[i].1);
        assert(live[j].name_hash == rows[j].1);
    }
    assert forall|i: int| 0 <= i < rows.len() implies lookup(table, (#[trigger] rows[i]).1)
        == Some(rows[i].0) by {
        lemma_lookup_finds_row(table, i);
    }
    assert forall|hash: u32|
        (forall|i: int| 0 <= i < rows.len() ==> (#[trigger] rows[i]).1 != hash) implies lookup(
        table,
        hash,
    ) is None by {
        assert forall|i: int| 0 <= i < live_len(table) implies (#[trigger] table[i]).name_hash
            != hash by {
            assert(rows[i].1 != hash);
        }
        lemma_lookup_absent(table, hash);
    }
}

} // verus!
