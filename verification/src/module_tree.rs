//! How a module declaration without a body is resolved to the file that holds
//! the module: which entry of the declaring file's directory stands for the
//! module, and which files are read for it.

use crate::text::views;
use vstd::prelude::*;
use vstd::string::StrSliceExecFns;
use vstd::string::StringExecFns;

verus! {

/// An entry of a directory.
#[derive(Debug)]
pub struct DirectoryEntry {
    /// The entry's file name, without the directory.
    pub name: String,
    pub is_file: bool,
    pub is_dir: bool,
}

/// The place of the last dot of a file name, counted from `n` downwards.
pub open spec fn last_dot_below(name: Seq<char>, n: int) -> Option<int>
    decreases n,
{
    if n <= 0 {
        None
    } else if name[n - 1] == '.' {
        Some(n - 1)
    } else {
        last_dot_below(name, n - 1)
    }
}

/// A file name without its extension: the part before the last dot. A name
/// without a dot, or with no other dot than its first character, has no
/// extension.
pub open spec fn stem_text(name: Seq<char>) -> Seq<char> {
    match last_dot_below(name, name.len() as int) {
        Some(dot) => if dot > 0 {
            name.take(dot)
        } else {
            name
        },
        None => name,
    }
}

/// Whether a directory entry stands for a module: its name without the
/// extension is the module's name.
pub open spec fn is_entry_of(entry: DirectoryEntry, module: Seq<char>) -> bool {
    stem_text(entry.name@) == module
}

/// The first of the first `n` entries that stands for the module.
pub open spec fn first_entry_below(entries: Seq<DirectoryEntry>, module: Seq<char>, n: int) -> Option<
    int,
>
    decreases n,
{
    if n <= 0 {
        None
    } else {
        match first_entry_below(entries, module, n - 1) {
            Some(i) => Some(i),
            None => if is_entry_of(entries[n - 1], module) {
                Some(n - 1)
            } else {
                None
            },
        }
    }
}

/// The entry that stands for the module: the first one, in the order in
/// which the directory was listed.
pub open spec fn entry_of(entries: Seq<DirectoryEntry>, module: Seq<char>) -> Option<int> {
    first_entry_below(entries, module, entries.len() as int)
}

/// `first_entry_below` finds the first entry that stands for the module, and
/// finds one wherever there is one.
pub proof fn lemma_first_entry(entries: Seq<DirectoryEntry>, module: Seq<char>, n: int)
    ensures
        match first_entry_below(entries, module, n) {
            Some(i) => 0 <= i < n && is_entry_of(entries[i], module) && forall|k: int|
                0 <= k < i ==> !is_entry_of(#[trigger] entries[k], module),
            None => forall|k: int| 0 <= k < n ==> !is_entry_of(#[trigger] entries[k], module),
        },
    decreases n,
{
    if n > 0 {
        lemma_first_entry(entries, module, n - 1);
    }
}

/// One file to read for a module, as a path below the directory of the
/// declaring file, and the file to read in its place where it cannot be used.
#[derive(Debug)]
pub struct Visit {
    pub path: Vec<String>,
    pub fallback: Option<Vec<String>>,
}

/// What a visit holds.
pub struct VisitPlan {
    pub path: Seq<Seq<char>>,
    pub fallback: Option<Seq<Seq<char>>>,
}

impl View for Visit {
    type V = VisitPlan;

    open spec fn view(&self) -> VisitPlan {
        VisitPlan {
            path: views(self.path@),
            fallback: match self.fallback {
                Some(fallback) => Some(views(fallback@)),
                None => None,
            },
        }
    }
}

/// What a list of visits holds.
pub open spec fn visit_plans(visits: Seq<Visit>) -> Seq<VisitPlan> {
    Seq::new(visits.len(), |i: int| visits[i]@)
}

/// The name of the file that a directory module is read from first.
pub open spec fn first_choice_text() -> Seq<char> {
    "mod.rs"@
}

/// The name of the file that a directory module is read from where its
/// `mod.rs` cannot be used: the directory's name, with `rs` as its extension.
pub open spec fn second_choice_text(directory: Seq<char>) -> Seq<char> {
    stem_text(directory) + ".rs"@
}

/// The visit of an entry that is a file: the file itself, with nothing in
/// its place.
pub open spec fn file_visit(name: Seq<char>) -> VisitPlan {
    VisitPlan { path: seq![name], fallback: None }
}

/// The visit of an entry that is a directory: its `mod.rs`, and in its place
/// the file that has the directory's name.
pub open spec fn directory_visit(name: Seq<char>) -> VisitPlan {
    VisitPlan {
        path: seq![name, first_choice_text()],
        fallback: Some(seq![name, second_choice_text(name)]),
    }
}

/// The visits that an entry asks for: one if it is a file, then one if it is
/// a directory.
pub open spec fn entry_visits(entry: DirectoryEntry) -> Seq<VisitPlan> {
    let file = if entry.is_file {
        seq![file_visit(entry.name@)]
    } else {
        Seq::empty()
    };
    let directory = if entry.is_dir {
        seq![directory_visit(entry.name@)]
    } else {
        Seq::empty()
    };
    file + directory
}

/// The visits that a module declaration asks for: those of the entry that
/// stands for the module, none where no entry does.
pub open spec fn visits_for(entries: Seq<DirectoryEntry>, module: Seq<char>) -> Seq<VisitPlan> {
    match entry_of(entries, module) {
        Some(index) => entry_visits(entries[index]),
        None => Seq::empty(),
    }
}

fn last_dot(name: &str) -> (dot: Option<usize>)
    ensures
        match dot {
            Some(dot) => last_dot_below(name@, name@.len() as int) == Some(dot as int) && dot
                < name@.len(),
            None => last_dot_below(name@, name@.len() as int) is None,
        },
{
    let len = name.unicode_len();
    let mut index = len;
    while index > 0
        invariant
            len == name@.len(),
            index <= len,
            last_dot_below(name@, len as int) == last_dot_below(name@, index as int),
        decreases index,
    {
        if name.get_char(index - 1) == '.' {
            return Some(index - 1);
        }
        index -= 1;
    }
    None
}

/// A file name without its extension.
pub fn stem(name: &str) -> (text: String)
    ensures
        text@ == stem_text(name@),
{
    match last_dot(name) {
        Some(dot) => {
            if dot > 0 {
                String::from_str(name.substring_char(0, dot))
            } else {
                String::from_str(name)
            }
        },
        None => String::from_str(name),
    }
}

/// Finds the directory entry that stands for a module: the first entry
/// whose name without the extension is the module's name.
pub fn find_module_entry(entries: &Vec<DirectoryEntry>, module: &str) -> (found: Option<usize>)
    ensures
        match found {
            Some(index) => index < entries@.len() && entry_of(entries@, module@) == Some(
                index as int,
            ),
            None => entry_of(entries@, module@) is None,
        },
{
    let wanted = String::from_str(module);
    let mut index: usize = 0;
    while index < entries.len()
        invariant
            index <= entries.len(),
            wanted@ == module@,
            first_entry_below(entries@, module@, index as int) is None,
        decreases entries.len() - index,
    {
        if stem(entries[index].name.as_str()) == wanted {
            proof {
                lemma_first_entry(entries@, module@, entries@.len() as int);
                lemma_first_entry(entries@, module@, index as int);
            }
            return Some(index);
        }
        index += 1;
    }
    None
}

fn path_of_one(name: &String) -> (path: Vec<String>)
    ensures
        views(path@) == seq![name@],
{
    let mut path: Vec<String> = Vec::new();
    path.push(name.clone());
    assert(views(path@) =~= seq![name@]);
    path
}

fn path_of_two(directory: &String, file: String) -> (path: Vec<String>)
    ensures
        views(path@) == seq![directory@, file@],
{
    let mut path: Vec<String> = Vec::new();
    path.push(directory.clone());
    path.push(file);
    assert(views(path@) =~= seq![directory@, file@]);
    path
}

/// Says which files are read for a module that a file declares without a
/// body, given the entries of the file's directory. The entry that stands
/// for the module is read as it is where it is a file. Where it is a
/// directory, the module is read from the directory's `mod.rs`, and where
/// that cannot be used, from the file that has the directory's name.
pub fn module_visits(entries: &Vec<DirectoryEntry>, module: &str) -> (visits: Vec<Visit>)
    ensures
        visit_plans(visits@) == visits_for(entries@, module@),
{
    let mut visits: Vec<Visit> = Vec::new();
    let index = match find_module_entry(entries, module) {
        Some(index) => index,
        None => {
            assert(visit_plans(visits@) =~= visits_for(entries@, module@));
            return visits;
        },
    };
    let entry = &entries[index];
    if entry.is_file {
        visits.push(Visit { path: path_of_one(&entry.name), fallback: None });
    }
    if entry.is_dir {
        let mut second_choice = stem(entry.name.as_str());
        second_choice.append(".rs");
        visits.push(
            Visit {
                path: path_of_two(&entry.name, String::from_str("mod.rs")),
                fallback: Some(path_of_two(&entry.name, second_choice)),
            },
        );
    }
    assert(visit_plans(visits@) =~= visits_for(entries@, module@));
    visits
}

} // verus!
