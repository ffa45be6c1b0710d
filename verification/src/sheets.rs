//! The cheat sheet data model and the process-match predicate.
//!
//! A sheet is scoped to a set of executable names; an empty set means the
//! sheet applies to every process. Membership is decided case-insensitively,
//! folding both sides at the point of comparison and never mutating stored
//! names.

use vstd::prelude::*;

use crate::text::{char_vecs_equal, lower_of, to_lower_chars};

verus! {

/// One shortcut: the key strokes, what they do, free-form tags, and an
/// optional hint.
pub struct CheatItem {
    pub keys: Vec<String>,
    pub desc: String,
    pub tags: Vec<String>,
    pub hint: Option<String>,
}

/// A titled group of shortcuts.
pub struct CheatSection {
    pub title: String,
    pub items: Vec<CheatItem>,
}

/// A named reference document, optionally scoped to a set of process names.
pub struct CheatSheet {
    pub id: String,
    pub name: String,
    pub description: String,
    pub hint: Option<String>,
    pub processes: Vec<String>,
    pub sections: Vec<CheatSection>,
}

/// Whether some name in `processes` equals `p` case-insensitively.
pub open spec fn spec_process_listed(processes: Seq<String>, p: Seq<char>) -> bool {
    exists|i: int| 0 <= i < processes.len() && lower_of(processes[i]@) == lower_of(p)
}

/// Whether a process set applies to process `p`: it is empty (applies
/// everywhere) or lists `p` case-insensitively.
pub open spec fn spec_processes_match(processes: Seq<String>, p: Seq<char>) -> bool {
    processes.len() == 0 || spec_process_listed(processes, p)
}

/// Whether `sheet` applies to process `p`: its process set is empty (the
/// sheet applies everywhere) or lists `p` case-insensitively.
pub open spec fn spec_sheet_matches(sheet: CheatSheet, p: Seq<char>) -> bool {
    spec_processes_match(sheet.processes@, p)
}

/// Whether some name in `processes` equals `process` case-insensitively.
pub fn process_listed(processes: &Vec<String>, process: &str) -> (r: bool)
    ensures
        r == spec_process_listed(processes@, process@),
{
    let lp = to_lower_chars(process);
    let mut i: usize = 0;
    while i < processes.len()
        invariant
            lp@ == lower_of(process@),
            i <= processes@.len(),
            forall|k: int| 0 <= k < i ==> lower_of(processes@[k]@) != lower_of(process@),
        decreases processes@.len() - i,
    {
        let lpi = to_lower_chars(processes[i].as_str());
        if char_vecs_equal(&lpi, &lp) {
            return true;
        }
        i += 1;
    }
    false
}

/// Whether the process set applies to `process` (empty set, or listed
/// case-insensitively).
pub fn processes_match(processes: &Vec<String>, process: &str) -> (r: bool)
    ensures
        r == spec_processes_match(processes@, process@),
{
    if processes.len() == 0 {
        true
    } else {
        process_listed(processes, process)
    }
}

/// Whether `sheet` applies to `process` (empty process set, or listed
/// case-insensitively).
pub fn sheet_matches_process(sheet: &CheatSheet, process: &str) -> (r: bool)
    ensures
        r == spec_sheet_matches(*sheet, process@),
{
    processes_match(&sheet.processes, process)
}

} // verus!
