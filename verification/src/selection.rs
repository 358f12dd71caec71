//! Which row of the visible sequence is selected, and how the selection
//! moves. A selection is a row of the sequence; there is none only while the
//! sequence is empty.

use crate::text::{first_index, lemma_first_index_is};
use vstd::prelude::*;

verus! {

/// Whether a selection fits a sequence of `len` rows.
pub open spec fn fits(selected: Option<usize>, len: nat) -> bool {
    match selected {
        Some(row) => row < len,
        None => len == 0,
    }
}

/// The selection one row further down, held at the last row.
pub open spec fn next(selected: Option<usize>, len: nat) -> Option<usize> {
    if len == 0 {
        None
    } else {
        match selected {
            Some(row) => if row + 1 < len {
                Some((row + 1) as usize)
            } else {
                Some((len - 1) as usize)
            },
            None => Some(0),
        }
    }
}

/// The selection one row further up, held at the first row.
pub open spec fn previous(selected: Option<usize>, len: nat) -> Option<usize> {
    if len == 0 {
        None
    } else {
        match selected {
            Some(row) => if row == 0 {
                Some(0)
            } else if row - 1 < len {
                Some((row - 1) as usize)
            } else {
                Some((len - 1) as usize)
            },
            None => Some((len - 1) as usize),
        }
    }
}

/// The selection on the first row.
pub open spec fn first(len: nat) -> Option<usize> {
    if len == 0 {
        None
    } else {
        Some(0)
    }
}

/// The selection on the last row.
pub open spec fn last(len: nat) -> Option<usize> {
    if len == 0 {
        None
    } else {
        Some((len - 1) as usize)
    }
}

/// The selection after the visible sequence changed to `rows`, each row
/// given as the place of its entry among all entries. The entry that was
/// selected keeps the selection where it is still to be seen. Otherwise the
/// row that was selected keeps it, or the last row where that one is no more.
pub open spec fn reanchored(entry: Option<usize>, row: Option<usize>, rows: Seq<usize>) -> Option<
    usize,
> {
    if rows.len() == 0 {
        None
    } else if entry is Some && 0 <= first_index(rows, entry->0) < rows.len() {
        Some(first_index(rows, entry->0) as usize)
    } else {
        match row {
            Some(row) => if row < rows.len() {
                Some(row)
            } else {
                Some((rows.len() - 1) as usize)
            },
            None => Some(0),
        }
    }
}

/// Moves the selection one row down.
pub fn select_next(selected: Option<usize>, len: usize) -> (r: Option<usize>)
    ensures
        r == next(selected, len as nat),
        fits(r, len as nat),
{
    if len == 0 {
        None
    } else {
        match selected {
            Some(row) => if row < len - 1 {
                Some(row + 1)
            } else {
                Some(len - 1)
            },
            None => Some(0),
        }
    }
}

/// Moves the selection one row up.
pub fn select_previous(selected: Option<usize>, len: usize) -> (r: Option<usize>)
    ensures
        r == previous(selected, len as nat),
        fits(r, len as nat),
{
    if len == 0 {
        None
    } else {
        match selected {
            Some(row) => if row == 0 {
                Some(0)
            } else if row - 1 < len {
                Some(row - 1)
            } else {
                Some(len - 1)
            },
            None => Some(len - 1),
        }
    }
}

/// Moves the selection to the first row.
pub fn select_first(len: usize) -> (r: Option<usize>)
    ensures
        r == first(len as nat),
        fits(r, len as nat),
{
    if len == 0 {
        None
    } else {
        Some(0)
    }
}

/// Moves the selection to the last row.
pub fn select_last(len: usize) -> (r: Option<usize>)
    ensures
        r == last(len as nat),
        fits(r, len as nat),
{
    if len == 0 {
        None
    } else {
        Some(len - 1)
    }
}

/// Finds the selection again after the visible sequence changed.
pub fn reanchor(entry: Option<usize>, row: Option<usize>, rows: &Vec<usize>) -> (r: Option<usize>)
    ensures
        r == reanchored(entry, row, rows@),
        fits(r, rows@.len()),
{
    if rows.len() == 0 {
        return None;
    }
    match entry {
        Some(e) => {
            let mut k: usize = 0;
            while k < rows.len()
                invariant
                    k <= rows.len(),
                    entry == Some(e),
                    forall|j: int| 0 <= j < k ==> rows@[j] != e,
                decreases rows.len() - k,
            {
                if rows[k] == e {
                    proof {
                        lemma_first_index_is(rows@, e, k as int);
                    }
                    return Some(k);
                }
                k = k + 1;
            }
            proof {
                lemma_first_index_is(rows@, e, rows@.len() as int);
            }
        },
        None => {},
    }
    match row {
        Some(row) => if row < rows.len() {
            Some(row)
        } else {
            Some(rows.len() - 1)
        },
        None => Some(0),
    }
}

/// Moving the selection never wraps around: a step down from the last row
/// and a step up from the first leave the selection where it is.
pub proof fn lemma_moves_are_clamped(selected: Option<usize>, len: nat)
    requires
        fits(selected, len),
        len <= usize::MAX,
    ensures
        fits(next(selected, len), len),
        fits(previous(selected, len), len),
        selected == last(len) ==> next(selected, len) == selected,
        selected == first(len) ==> previous(selected, len) == selected,
        len == 0 ==> next(selected, len) == selected && previous(selected, len) == selected
            && first(len) == selected && last(len) == selected,
{
}

} // verus!
