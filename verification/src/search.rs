//! The search: a query that is edited at a cursor, and the scan of the
//! visible names for the next one that begins with it.

use crate::registry::EntryRegistry;
use crate::text::{
    begins_with, chars_of, first_index, lemma_first_index, lemma_first_index_is, lowercase,
    starts_with, string_of,
};
use vstd::prelude::*;

verus! {

/// A query and the cursor in it as plain mathematical values.
pub struct BufferView {
    pub text: Seq<char>,
    pub cursor: nat,
}

impl BufferView {
    /// The empty query.
    pub open spec fn empty() -> BufferView {
        BufferView { text: Seq::empty(), cursor: 0 }
    }

    /// The query with `c` put in at the cursor, the cursor behind it.
    pub open spec fn inserted(self, c: char) -> BufferView {
        BufferView { text: self.text.insert(self.cursor as int, c), cursor: self.cursor + 1 }
    }

    /// The query without the character before the cursor; the query itself
    /// where the cursor stands at the start.
    pub open spec fn deleted(self) -> BufferView {
        if self.cursor > 0 {
            BufferView {
                text: self.text.remove(self.cursor - 1),
                cursor: (self.cursor - 1) as nat,
            }
        } else {
            self
        }
    }

    /// The cursor one place to the left, held at the start.
    pub open spec fn left(self) -> BufferView {
        if self.cursor > 0 {
            BufferView { cursor: (self.cursor - 1) as nat, ..self }
        } else {
            self
        }
    }

    /// The cursor one place to the right, held at the end.
    pub open spec fn right(self) -> BufferView {
        if self.cursor < self.text.len() {
            BufferView { cursor: self.cursor + 1, ..self }
        } else {
            self
        }
    }
}

/// The query of a search and the place in it where editing happens.
pub struct SearchBuffer {
    text: Vec<char>,
    cursor: usize,
}

impl View for SearchBuffer {
    type V = BufferView;

    closed spec fn view(&self) -> BufferView {
        BufferView { text: self.text@, cursor: self.cursor as nat }
    }
}

impl SearchBuffer {
    /// Whether the cursor stands within the query or at its end.
    pub open spec fn wf(&self) -> bool {
        self@.cursor <= self@.text.len()
    }

    /// An empty query.
    pub fn new() -> (r: Self)
        ensures
            r.wf(),
            r@ == BufferView::empty(),
    {
        SearchBuffer { text: Vec::new(), cursor: 0 }
    }

    /// The query as a string.
    pub fn text(&self) -> (r: String)
        ensures
            r@ == self@.text,
    {
        let r = string_of(&self.text, 0, self.text.len());
        assert(self.text@.subrange(0, self.text@.len() as int) =~= self.text@);
        r
    }

    /// Where the cursor stands: how many characters are before it.
    pub fn cursor(&self) -> (r: usize)
        ensures
            r == self@.cursor,
    {
        self.cursor
    }

    /// Empties the query.
    pub fn clear(&mut self)
        ensures
            final(self).wf(),
            final(self)@ == BufferView::empty(),
    {
        self.text = Vec::new();
        self.cursor = 0;
    }

    /// Puts a character in at the cursor.
    pub fn insert(&mut self, c: char)
        requires
            old(self).wf(),
        ensures
            final(self).wf(),
            final(self)@ == old(self)@.inserted(c),
    {
        self.text.insert(self.cursor, c);
        assert(self.cursor < self.text.len());
        self.cursor = self.cursor + 1;
    }

    /// Takes out the character before the cursor.
    pub fn delete_before_cursor(&mut self)
        requires
            old(self).wf(),
        ensures
            final(self).wf(),
            final(self)@ == old(self)@.deleted(),
    {
        if self.cursor > 0 {
            self.text.remove(self.cursor - 1);
            self.cursor = self.cursor - 1;
        }
    }

    /// Moves the cursor one place to the left.
    pub fn move_left(&mut self)
        requires
            old(self).wf(),
        ensures
            final(self).wf(),
            final(self)@ == old(self)@.left(),
    {
        if self.cursor > 0 {
            self.cursor = self.cursor - 1;
        }
    }

    /// Moves the cursor one place to the right.
    pub fn move_right(&mut self)
        requires
            old(self).wf(),
        ensures
            final(self).wf(),
            final(self)@ == old(self)@.right(),
    {
        if self.cursor < self.text.len() {
            self.cursor = self.cursor + 1;
        }
    }
}

/// Whether a name begins with the query when the case of letters is left
/// out of account: both are compared in lower case.
pub open spec fn is_hit(name: Seq<char>, query: Seq<char>) -> bool {
    starts_with(lowercase(name), lowercase(query))
}

/// The row that the scan looks at in its step `k`: the rows after `from` up
/// to the last, then the rows from the first up to `from` itself.
pub open spec fn scan_row(from: int, k: int, len: int) -> int {
    if from + 1 + k < len {
        from + 1 + k
    } else {
        from + 1 + k - len
    }
}

/// The step in which the scan looks at `row`.
pub open spec fn scan_step(from: int, row: int, len: int) -> int {
    if row > from {
        row - from - 1
    } else {
        row - from - 1 + len
    }
}

/// For each step of the scan, whether the name in its row is a hit.
pub open spec fn scan_hits(names: Seq<Seq<char>>, from: int, query: Seq<char>) -> Seq<bool> {
    Seq::new(names.len(), |k: int| is_hit(names[scan_row(from, k, names.len() as int)], query))
}

/// The row of the first hit that the scan comes to. There is none where the
/// query is empty, where no row is selected, or where no name is a hit.
pub open spec fn next_match(names: Seq<Seq<char>>, selected: Option<usize>, query: Seq<char>) -> Option<
    usize,
> {
    match selected {
        Some(from) => {
            let k = first_index(scan_hits(names, from as int, query), true);
            if query.len() > 0 && from < names.len() && 0 <= k < names.len() {
                Some(scan_row(from as int, k, names.len() as int) as usize)
            } else {
                None
            }
        },
        None => None,
    }
}

/// Scans the visible names for the next that begins with the query,
/// starting behind the selected row and coming round to it.
pub fn find_next_match(registry: &EntryRegistry, selected: Option<usize>, query: &str) -> (r:
    Option<usize>)
    requires
        registry.wf(),
    ensures
        r == next_match(registry@.names(), selected, query@),
        r matches Some(row) ==> row < registry@.rows().len(),
{
    let len = registry.visible_len();
    let from = match selected {
        Some(from) => from,
        None => {
            return None;
        },
    };
    let ghost names = registry@.names();
    let ghost hits = scan_hits(names, from as int, query@);
    if query.is_empty() || from >= len {
        return None;
    }
    let wanted = chars_of(query.to_lowercase().as_str());
    let mut k: usize = 0;
    while k < len
        invariant
            k <= len,
            from < len,
            selected == Some(from),
            query@.len() > 0,
            registry.wf(),
            len == registry@.rows().len(),
            names == registry@.names(),
            hits == scan_hits(names, from as int, query@),
            wanted@ == lowercase(query@),
            forall|j: int| 0 <= j < k ==> !hits[j],
        decreases len - k,
    {
        let row: usize = if k < len - 1 - from {
            from + 1 + k
        } else {
            k - (len - 1 - from)
        };
        assert(row == scan_row(from as int, k as int, len as int));
        let entry = registry.visible_entry(row).unwrap();
        let name = chars_of(entry.name.to_lowercase().as_str());
        assert(name@ == lowercase(names[row as int]));
        if begins_with(&name, &wanted) {
            proof {
                assert(hits[k as int]);
                lemma_first_index_is(hits, true, k as int);
            }
            return Some(row);
        }
        assert(!hits[k as int]);
        k = k + 1;
    }
    proof {
        lemma_first_index_is(hits, true, len as int);
    }
    None
}

/// The scan visits every row once, the selected row last.
pub proof fn lemma_scan_visits_all(from: int, len: int)
    requires
        0 <= from < len,
    ensures
        scan_row(from, len - 1, len) == from,
        forall|k: int| 0 <= k < len ==> 0 <= #[trigger] scan_row(from, k, len) < len,
        forall|k: int, l: int|
            0 <= k < l < len ==> #[trigger] scan_row(from, k, len) != #[trigger] scan_row(
                from,
                l,
                len,
            ),
        forall|row: int|
            0 <= row < len ==> 0 <= #[trigger] scan_step(from, row, len) < len && scan_row(
                from,
                scan_step(from, row, len),
                len,
            ) == row,
{
}

/// The row that a search moves to holds a hit, and the scan passes no hit
/// on its way there. A search that moves nowhere had an empty query, no
/// selected row, or not one hit among the visible names.
pub proof fn lemma_next_match(names: Seq<Seq<char>>, selected: Option<usize>, query: Seq<char>)
    requires
        names.len() <= usize::MAX,
    ensures
        next_match(names, selected, query) matches Some(row) ==> {
            &&& query.len() > 0
            &&& selected is Some
            &&& selected->0 < names.len()
            &&& row < names.len()
            &&& is_hit(names[row as int], query)
            &&& forall|j: int|
                0 <= j < scan_step(selected->0 as int, row as int, names.len() as int) ==> !is_hit(
                    names[#[trigger] scan_row(selected->0 as int, j, names.len() as int)],
                    query,
                )
        },
        next_match(names, selected, query) is None ==> {
            ||| query.len() == 0
            ||| selected is None
            ||| selected->0 >= names.len()
            ||| forall|row: int| 0 <= row < names.len() ==> !is_hit(#[trigger] names[row], query)
        },
{
    match selected {
        Some(from) => {
            if query.len() > 0 && from < names.len() {
                let len = names.len() as int;
                let hits = scan_hits(names, from as int, query);
                let k = first_index(hits, true);
                lemma_first_index(hits, true);
                lemma_scan_visits_all(from as int, len);
                if k < len {
                    let row = scan_row(from as int, k, len);
                    assert(hits[k]);
                    assert(scan_step(from as int, row, len) == k);
                    assert forall|j: int| 0 <= j < k implies !is_hit(
                        names[#[trigger] scan_row(from as int, j, len)],
                        query,
                    ) by {
                        assert(!hits[j]);
                    }
                } else {
                    assert forall|row: int| 0 <= row < len implies !is_hit(
                        #[trigger] names[row],
                        query,
                    ) by {
                        let j = scan_step(from as int, row, len);
                        assert(scan_row(from as int, j, len) == row);
                        assert(!hits[j]);
                    }
                }
            }
        },
        None => {},
    }
}

} // verus!
