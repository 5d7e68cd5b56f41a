//! Small tables keyed by a symbol's character, kept as a list of entries in
//! the order they were added. The first entry of a key is the one that counts.

use vstd::prelude::*;

verus! {

/// The position of the first entry of `id`, counted from `from`.
pub open spec fn position_from<T>(entries: Seq<(char, T)>, id: char, from: int) -> Option<int>
    decreases entries.len() - from,
{
    if from < 0 || from >= entries.len() {
        None
    } else if entries[from].0 == id {
        Some(from)
    } else {
        position_from(entries, id, from + 1)
    }
}

/// The position of the first entry of `id`.
pub open spec fn position<T>(entries: Seq<(char, T)>, id: char) -> Option<int> {
    position_from(entries, id, 0)
}

/// What the table holds for `id`.
pub open spec fn lookup<T>(entries: Seq<(char, T)>, id: char) -> Option<T> {
    match position(entries, id) {
        Some(i) => Some(entries[i].1),
        None => None,
    }
}

/// Finds the first entry of `id`.
pub fn find<T>(entries: &Vec<(char, T)>, id: char) -> (found: Option<usize>)
    ensures
        match found {
            Some(i) => position(entries@, id) == Some(i as int) && i < entries.len(),
            None => position(entries@, id) is None,
        },
{
    let mut i: usize = 0;
    while i < entries.len()
        invariant
            i <= entries.len(),
            position(entries@, id) == position_from(entries@, id, i as int),
        decreases entries.len() - i,
    {
        if entries[i].0 == id {
            return Some(i);
        }
        i += 1;
    }
    None
}

} // verus!
