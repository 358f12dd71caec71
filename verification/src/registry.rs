//! All the entries of a session in their fixed order, and the rows of them
//! that are to be seen: every entry while advanced entries are shown, else
//! those that are not advanced.

use crate::entry::{CacheEntry, EntryView};
use crate::table::views;
use vstd::prelude::*;

verus! {

/// Whether an entry is to be seen.
pub open spec fn shown(e: EntryView, show_advanced: bool) -> bool {
    show_advanced || !e.advanced
}

/// The places of the entries that are to be seen, in their order.
pub open spec fn visible_rows(entries: Seq<EntryView>, show_advanced: bool) -> Seq<usize>
    decreases entries.len(),
{
    if entries.len() == 0 {
        Seq::empty()
    } else {
        let rest = visible_rows(entries.drop_last(), show_advanced);
        if shown(entries.last(), show_advanced) {
            rest.push((entries.len() - 1) as usize)
        } else {
            rest
        }
    }
}

/// The rows are the places of the shown entries, each once and in rising
/// order.
pub proof fn lemma_visible_rows(entries: Seq<EntryView>, show_advanced: bool)
    requires
        entries.len() <= usize::MAX,
    ensures
        visible_rows(entries, show_advanced).len() <= entries.len(),
        forall|k: int|
            0 <= k < visible_rows(entries, show_advanced).len() ==> {
                let at = #[trigger] visible_rows(entries, show_advanced)[k];
                at < entries.len() && shown(entries[at as int], show_advanced)
            },
        forall|k: int, l: int|
            #![trigger visible_rows(entries, show_advanced)[k], visible_rows(entries, show_advanced)[l]]
            0 <= k < l < visible_rows(entries, show_advanced).len() ==> visible_rows(
                entries,
                show_advanced,
            )[k] < visible_rows(entries, show_advanced)[l],
        forall|at: int|
            0 <= at < entries.len() && shown(#[trigger] entries[at], show_advanced)
                ==> visible_rows(entries, show_advanced).contains(at as usize),
    decreases entries.len(),
{
    if entries.len() > 0 {
        let fewer = entries.drop_last();
        let rest = visible_rows(fewer, show_advanced);
        let rows = visible_rows(entries, show_advanced);
        lemma_visible_rows(fewer, show_advanced);
        assert forall|k: int| 0 <= k < rows.len() implies {
            let at = #[trigger] rows[k];
            at < entries.len() && shown(entries[at as int], show_advanced)
        } by {
            if k < rest.len() {
                assert(rows[k] == rest[k]);
                assert(fewer[rest[k] as int] == entries[rest[k] as int]);
            }
        }
        assert forall|k: int, l: int|
            #![trigger rows[k], rows[l]]
            0 <= k < l < rows.len() implies rows[k] < rows[l] by {
            assert(rows[k] == rest[k]);
            if l < rest.len() {
                assert(rows[l] == rest[l]);
            }
        }
        assert forall|at: int|
            0 <= at < entries.len() && shown(#[trigger] entries[at], show_advanced) implies rows.contains(
            at as usize,
        ) by {
            if at < fewer.len() {
                assert(fewer[at] == entries[at]);
                let k = choose|k: int| 0 <= k < rest.len() && rest[k] == at as usize;
                assert(rows[k] == at as usize);
            } else {
                assert(rows[rows.len() - 1] == at as usize);
            }
        }
    }
}

/// Which rows are to be seen depends on the advanced flags alone.
pub proof fn lemma_rows_follow_flags(a: Seq<EntryView>, b: Seq<EntryView>, show_advanced: bool)
    requires
        a.len() == b.len(),
        forall|i: int| 0 <= i < a.len() ==> (#[trigger] a[i]).advanced == b[i].advanced,
    ensures
        visible_rows(a, show_advanced) == visible_rows(b, show_advanced),
    decreases a.len(),
{
    if a.len() > 0 {
        assert forall|i: int| 0 <= i < a.len() - 1 implies (#[trigger] a.drop_last()[i]).advanced
            == b.drop_last()[i].advanced by {
            assert(a.drop_last()[i] == a[i]);
            assert(b.drop_last()[i] == b[i]);
        }
        lemma_rows_follow_flags(a.drop_last(), b.drop_last(), show_advanced);
        assert(a.last() == a[a.len() - 1]);
    }
}

/// A registry as plain mathematical values.
pub struct RegistryView {
    pub entries: Seq<EntryView>,
    pub show_advanced: bool,
}

impl RegistryView {
    /// The places of the entries that are to be seen.
    pub open spec fn rows(self) -> Seq<usize> {
        visible_rows(self.entries, self.show_advanced)
    }

    /// The entries that are to be seen, in their order.
    pub open spec fn visible(self) -> Seq<EntryView> {
        Seq::new(self.rows().len(), |k: int| self.entries[self.rows()[k] as int])
    }

    /// The names of the entries that are to be seen.
    pub open spec fn names(self) -> Seq<Seq<char>> {
        Seq::new(self.rows().len(), |k: int| self.entries[self.rows()[k] as int].name)
    }

    /// The registry with advanced entries shown or not.
    pub open spec fn showing(self, show_advanced: bool) -> RegistryView {
        RegistryView { show_advanced, ..self }
    }

    /// The registry after the value transition of the entry in a row; the
    /// registry itself where there is no such row.
    pub open spec fn stepped(self, row: usize) -> RegistryView {
        if row < self.rows().len() {
            let at = self.rows()[row as int] as int;
            RegistryView { entries: self.entries.update(at, self.entries[at].stepped()), ..self }
        } else {
            self
        }
    }
}

/// The entries of a session and the rows of them that are to be seen.
pub struct EntryRegistry {
    entries: Vec<CacheEntry>,
    show_advanced: bool,
    visible: Vec<usize>,
}

impl View for EntryRegistry {
    type V = RegistryView;

    closed spec fn view(&self) -> RegistryView {
        RegistryView { entries: views(self.entries@), show_advanced: self.show_advanced }
    }
}

/// The places of the entries that are to be seen, found by going through
/// all the entries.
pub fn rows_of(entries: &Vec<CacheEntry>, show_advanced: bool) -> (rows: Vec<usize>)
    ensures
        rows@ == visible_rows(views(entries@), show_advanced),
{
    let ghost all = views(entries@);
    let mut rows: Vec<usize> = Vec::new();
    let mut i: usize = 0;
    assert(all.take(0) =~= Seq::<EntryView>::empty());
    while i < entries.len()
        invariant
            i <= entries.len(),
            all == views(entries@),
            rows@ == visible_rows(all.take(i as int), show_advanced),
        decreases entries.len() - i,
    {
        proof {
            assert(all.take(i + 1).drop_last() =~= all.take(i as int));
            assert(all.take(i + 1).last() == entries@[i as int]@);
        }
        if show_advanced || !entries[i].advanced {
            rows.push(i);
        }
        i = i + 1;
    }
    assert(all.take(entries.len() as int) =~= all);
    rows
}

impl EntryRegistry {
    /// Whether the rows held are those of the entries that are to be seen.
    pub closed spec fn wf(&self) -> bool {
        self.visible@ == self@.rows()
    }

    /// A registry of the given entries in the given order, the advanced
    /// ones not shown.
    pub fn new(entries: Vec<CacheEntry>) -> (r: Self)
        ensures
            r.wf(),
            r@ == (RegistryView { entries: views(entries@), show_advanced: false }),
    {
        let visible = rows_of(&entries, false);
        EntryRegistry { entries, show_advanced: false, visible }
    }

    /// Whether advanced entries are shown.
    pub fn show_advanced(&self) -> (r: bool)
        ensures
            r == self@.show_advanced,
    {
        self.show_advanced
    }

    /// All the entries, shown or not.
    pub fn entries(&self) -> (r: &Vec<CacheEntry>)
        ensures
            views(r@) == self@.entries,
    {
        &self.entries
    }

    /// The places of the entries that are to be seen.
    pub fn rows(&self) -> (r: &Vec<usize>)
        requires
            self.wf(),
        ensures
            r@ == self@.rows(),
    {
        &self.visible
    }

    /// How many entries are to be seen.
    pub fn visible_len(&self) -> (n: usize)
        requires
            self.wf(),
        ensures
            n == self@.rows().len(),
    {
        self.visible.len()
    }

    /// The entry in a row of the visible sequence; `None` beyond its end.
    pub fn visible_entry(&self, row: usize) -> (r: Option<&CacheEntry>)
        requires
            self.wf(),
        ensures
            r is Some <==> row < self@.rows().len(),
            r matches Some(e) ==> e@ == self@.visible()[row as int],
    {
        if row < self.visible.len() {
            proof {
                assert(self@.entries.len() == self.entries.len());
                lemma_visible_rows(self@.entries, self@.show_advanced);
            }
            let at = self.visible[row];
            assert(at < self@.entries.len());
            Some(&self.entries[at])
        } else {
            None
        }
    }

    /// Shows or hides the advanced entries and finds the rows anew.
    pub fn set_show_advanced(&mut self, show_advanced: bool)
        requires
            old(self).wf(),
        ensures
            final(self).wf(),
            final(self)@ == old(self)@.showing(show_advanced),
    {
        self.show_advanced = show_advanced;
        self.visible = rows_of(&self.entries, show_advanced);
    }

    /// Applies to the entry in a row the value transition that its kind
    /// calls for. Beyond the end of the visible sequence nothing changes.
    pub fn step_value(&mut self, row: usize)
        requires
            old(self).wf(),
        ensures
            final(self).wf(),
            final(self)@ == old(self)@.stepped(row),
            final(self)@.rows() == old(self)@.rows(),
            final(self)@.entries.len() == old(self)@.entries.len(),
    {
        if row < self.visible.len() {
            proof {
                assert(self@.entries.len() == self.entries.len());
                lemma_visible_rows(self@.entries, self@.show_advanced);
            }
            let ghost before = self@.entries;
            let at = self.visible[row];
            assert(at < before.len());
            self.entries[at].step_value();
            proof {
                let after = views(self.entries@);
                assert(after =~= before.update(at as int, before[at as int].stepped()));
                lemma_rows_follow_flags(before, after, self.show_advanced);
            }
        }
    }
}

} // verus!
