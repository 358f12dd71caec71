//! The mapping from names to entries that parsing builds, kept as a sequence
//! in the order of the names so that listing it needs no sorting.

use crate::entry::{CacheEntry, EntryType, EntryView};
use crate::text::{
    lemma_precedes_asymmetric, lemma_precedes_irreflexive, lemma_precedes_total,
    lemma_precedes_transitive, precedes, rank, split, Rank,
};
use vstd::prelude::*;

verus! {

/// The views of a sequence of entries.
pub open spec fn views(v: Seq<CacheEntry>) -> Seq<EntryView> {
    Seq::new(v.len(), |i: int| v[i]@)
}

/// Whether the names strictly ascend, so that no name occurs twice.
pub open spec fn ascending(s: Seq<EntryView>) -> bool {
    forall|i: int, j: int|
        #![trigger s[i], s[j]]
        0 <= i < j < s.len() ==> precedes(s[i].name, s[j].name)
}

/// Whether some entry bears the name.
pub open spec fn has(s: Seq<EntryView>, name: Seq<char>) -> bool {
    exists|i: int| 0 <= i < s.len() && #[trigger] s[i].name == name
}

/// The entries whose names come before `name`.
pub open spec fn before(s: Seq<EntryView>, name: Seq<char>) -> Seq<EntryView> {
    s.filter(|e: EntryView| precedes(e.name, name))
}

/// The entries whose names come after `name`.
pub open spec fn after(s: Seq<EntryView>, name: Seq<char>) -> Seq<EntryView> {
    s.filter(|e: EntryView| precedes(name, e.name))
}

/// The entries with `e` in the place of its name: an earlier entry of that
/// name is gone.
pub open spec fn put(s: Seq<EntryView>, e: EntryView) -> Seq<EntryView> {
    before(s, e.name).push(e) + after(s, e.name)
}

/// The entries, the one named `name` now an enumeration over `values`.
pub open spec fn with_allowed(s: Seq<EntryView>, name: Seq<char>, values: Seq<Seq<char>>) -> Seq<
    EntryView,
> {
    Seq::new(
        s.len(),
        |i: int|
            if s[i].name == name {
                EntryView { entry_type: EntryType::Enum, values, ..s[i] }
            } else {
                s[i]
            },
    )
}

/// The entries, the one named `name` now advanced.
pub open spec fn with_advanced(s: Seq<EntryView>, name: Seq<char>) -> Seq<EntryView> {
    Seq::new(
        s.len(),
        |i: int|
            if s[i].name == name {
                EntryView { advanced: true, ..s[i] }
            } else {
                s[i]
            },
    )
}

proof fn lemma_filter_keeps_all<A>(s: Seq<A>, pred: spec_fn(A) -> bool)
    requires
        forall|i: int| 0 <= i < s.len() ==> pred(#[trigger] s[i]),
    ensures
        s.filter(pred) == s,
    decreases s.len(),
{
    reveal(Seq::filter);
    if s.len() > 0 {
        lemma_filter_keeps_all(s.drop_last(), pred);
        assert(s.drop_last().push(s.last()) =~= s);
    }
}

proof fn lemma_filter_drops_all<A>(s: Seq<A>, pred: spec_fn(A) -> bool)
    requires
        forall|i: int| 0 <= i < s.len() ==> !pred(#[trigger] s[i]),
    ensures
        s.filter(pred) == Seq::<A>::empty(),
    decreases s.len(),
{
    reveal(Seq::filter);
    if s.len() > 0 {
        lemma_filter_drops_all(s.drop_last(), pred);
    }
}

/// Where the names ascend, putting an entry is replacing the entry of its
/// name or inserting it where its name belongs, and the names still ascend.
pub proof fn lemma_put(s: Seq<EntryView>, e: EntryView, p: int, found: bool)
    requires
        ascending(s),
        0 <= p <= s.len(),
        forall|j: int| 0 <= j < p ==> precedes(#[trigger] s[j].name, e.name),
        found ==> p < s.len() && s[p].name == e.name,
        !found ==> forall|j: int| p <= j < s.len() ==> precedes(e.name, #[trigger] s[j].name),
    ensures
        put(s, e) == if found {
            s.update(p, e)
        } else {
            s.insert(p, e)
        },
        ascending(put(s, e)),
{
    let less = |x: EntryView| precedes(x.name, e.name);
    let more = |x: EntryView| precedes(e.name, x.name);
    let lo = s.take(p);
    let mid = if found {
        seq![s[p]]
    } else {
        Seq::<EntryView>::empty()
    };
    let hi = if found {
        s.skip(p + 1)
    } else {
        s.skip(p)
    };
    assert(s =~= lo + mid + hi);
    lemma_precedes_irreflexive(e.name);
    assert forall|j: int| 0 <= j < hi.len() implies more(#[trigger] hi[j]) && !less(hi[j]) by {
        if found {
            assert(hi[j] == s[p + 1 + j]);
            assert(precedes(s[p].name, s[p + 1 + j].name));
        } else {
            assert(hi[j] == s[p + j]);
        }
        lemma_precedes_asymmetric(e.name, hi[j].name);
    }
    assert forall|j: int| 0 <= j < lo.len() implies less(#[trigger] lo[j]) && !more(lo[j]) by {
        assert(lo[j] == s[j]);
        lemma_precedes_asymmetric(lo[j].name, e.name);
    }
    lemma_filter_keeps_all(lo, less);
    lemma_filter_drops_all(lo, more);
    lemma_filter_drops_all(mid, less);
    lemma_filter_drops_all(mid, more);
    lemma_filter_drops_all(hi, less);
    lemma_filter_keeps_all(hi, more);
    Seq::filter_distributes_over_add(lo, mid, less);
    Seq::filter_distributes_over_add(lo + mid, hi, less);
    Seq::filter_distributes_over_add(lo, mid, more);
    Seq::filter_distributes_over_add(lo + mid, hi, more);
    assert(before(s, e.name) =~= lo);
    assert(after(s, e.name) =~= hi);
    let out = put(s, e);
    assert(out =~= lo.push(e) + hi);
    if found {
        assert(out =~= s.update(p, e));
    } else {
        assert(out =~= s.insert(p, e));
    }
    assert forall|i: int, j: int| 0 <= i < j < out.len() implies precedes(
        out[i].name,
        out[j].name,
    ) by {
        if j < p {
            assert(out[i] == s[i] && out[j] == s[j]);
        } else if j == p {
            assert(out[i] == s[i]);
        } else if i == p {
            assert(out[j] == hi[j - p - 1]);
        } else if i < p {
            assert(out[i] == s[i]);
            assert(out[j] == hi[j - p - 1]);
            lemma_precedes_transitive(out[i].name, e.name, out[j].name);
        } else {
            assert(out[i] == hi[i - p - 1]);
            assert(out[j] == hi[j - p - 1]);
            if found {
                assert(precedes(s[i].name, s[j].name));
            } else {
                assert(precedes(s[i - 1].name, s[j - 1].name));
            }
        }
    }
}

/// Among ascending names every name has its place: the entries before it
/// come before the name, and the place holds the name or the entries from
/// there on come after it.
pub proof fn lemma_place(s: Seq<EntryView>, name: Seq<char>) -> (r: (int, bool))
    requires
        ascending(s),
    ensures
        0 <= r.0 <= s.len(),
        forall|j: int| 0 <= j < r.0 ==> precedes(#[trigger] s[j].name, name),
        r.1 ==> r.0 < s.len() && s[r.0].name == name,
        !r.1 ==> forall|j: int| r.0 <= j < s.len() ==> precedes(name, #[trigger] s[j].name),
    decreases s.len(),
{
    if s.len() == 0 {
        (0, false)
    } else {
        let last = s.last();
        let rest = s.drop_last();
        assert forall|j: int| 0 <= j < rest.len() implies precedes(
            #[trigger] s[j].name,
            last.name,
        ) by {
            assert(s[j] == s[j] && last == s[s.len() - 1]);
        }
        if last.name == name {
            (s.len() - 1, true)
        } else if precedes(last.name, name) {
            assert forall|j: int| 0 <= j < s.len() implies precedes(
                #[trigger] s[j].name,
                name,
            ) by {
                if j < s.len() - 1 {
                    lemma_precedes_transitive(s[j].name, last.name, name);
                }
            }
            (s.len() as int, false)
        } else {
            lemma_precedes_total(last.name, name);
            assert forall|i: int, j: int| 0 <= i < j < rest.len() implies precedes(
                rest[i].name,
                rest[j].name,
            ) by {
                assert(rest[i] == s[i] && rest[j] == s[j]);
            }
            let r = lemma_place(rest, name);
            assert forall|j: int| 0 <= j < r.0 implies precedes(#[trigger] s[j].name, name) by {
                assert(s[j] == rest[j]);
            }
            if !r.1 {
                assert forall|j: int| r.0 <= j < s.len() implies precedes(
                    name,
                    #[trigger] s[j].name,
                ) by {
                    if j < rest.len() {
                        assert(s[j] == rest[j]);
                    }
                }
            } else {
                assert(s[r.0] == rest[r.0]);
            }
            r
        }
    }
}

/// Putting an entry among ascending names keeps the names ascending, and
/// what is there afterwards is the entry and entries that were there before.
pub proof fn lemma_put_keeps_order(s: Seq<EntryView>, e: EntryView)
    requires
        ascending(s),
    ensures
        ascending(put(s, e)),
        has(put(s, e), e.name),
        forall|i: int|
            0 <= i < put(s, e).len() ==> (#[trigger] put(s, e)[i]) == e || (s.contains(put(s, e)[i])
                && put(s, e)[i].name != e.name),
{
    let (p, found) = lemma_place(s, e.name);
    lemma_put(s, e, p, found);
    let out = put(s, e);
    assert(out[p] == e);
    lemma_precedes_irreflexive(e.name);
    assert forall|i: int| 0 <= i < out.len() implies (#[trigger] out[i]) == e || (s.contains(out[i])
        && out[i].name != e.name) by {
        if i < p {
            assert(out[i] == s[i]);
        } else if i > p {
            if found {
                assert(out[i] == s[i]);
                assert(precedes(s[p].name, s[i].name));
            } else {
                assert(out[i] == s[i - 1]);
            }
        }
    }
}

/// The entries found so far, in the order of their names.
pub struct EntryTable {
    items: Vec<CacheEntry>,
}

impl View for EntryTable {
    type V = Seq<EntryView>;

    closed spec fn view(&self) -> Seq<EntryView> {
        views(self.items@)
    }
}

impl EntryTable {
    /// Whether the table is in order: the names strictly ascend.
    pub open spec fn wf(&self) -> bool {
        ascending(self@)
    }

    /// A table without entries.
    pub fn new() -> (t: Self)
        ensures
            t.wf(),
            t@ == Seq::<EntryView>::empty(),
    {
        let t = EntryTable { items: Vec::new() };
        assert(views(t.items@) =~= Seq::<EntryView>::empty());
        t
    }

    /// How many entries there are.
    pub fn len(&self) -> (n: usize)
        ensures
            n == self@.len(),
    {
        self.items.len()
    }

    /// The place where `name` stands or would stand, and whether it stands
    /// there. The place is found by halving the range in which it can lie.
    fn position(&self, name: &str) -> (r: (usize, bool))
        requires
            self.wf(),
        ensures
            r.0 <= self@.len(),
            forall|j: int| 0 <= j < r.0 ==> precedes(#[trigger] self@[j].name, name@),
            r.1 ==> r.0 < self@.len() && self@[r.0 as int].name == name@,
            !r.1 ==> forall|j: int|
                r.0 <= j < self@.len() ==> precedes(name@, #[trigger] self@[j].name),
    {
        let ghost s = self@;
        let mut low: usize = 0;
        let mut high: usize = self.items.len();
        while low < high
            invariant
                s == views(self.items@),
                ascending(s),
                low <= high <= s.len(),
                forall|j: int| 0 <= j < low ==> precedes(#[trigger] s[j].name, name@),
                forall|j: int| high <= j < s.len() ==> precedes(name@, #[trigger] s[j].name),
            decreases high - low,
        {
            let mid = low + (high - low) / 2;
            let r = rank(self.items[mid].name.as_str(), name);
            assert(s[mid as int].name == self.items@[mid as int].name@);
            if r == Rank::Before {
                proof {
                    assert forall|j: int| 0 <= j <= mid implies precedes(
                        #[trigger] s[j].name,
                        name@,
                    ) by {
                        if j < mid {
                            assert(precedes(s[j].name, s[mid as int].name));
                            lemma_precedes_transitive(s[j].name, s[mid as int].name, name@);
                        }
                    }
                }
                low = mid + 1;
            } else if r == Rank::After {
                proof {
                    assert forall|j: int| mid <= j < s.len() implies precedes(
                        name@,
                        #[trigger] s[j].name,
                    ) by {
                        if j > mid {
                            assert(precedes(s[mid as int].name, s[j].name));
                            lemma_precedes_transitive(name@, s[mid as int].name, s[j].name);
                        }
                    }
                }
                high = mid;
            } else {
                proof {
                    assert forall|j: int| 0 <= j < mid implies precedes(
                        #[trigger] s[j].name,
                        name@,
                    ) by {
                        assert(precedes(s[j].name, s[mid as int].name));
                    }
                }
                return (mid, true);
            }
        }
        (low, false)
    }

    /// Where the entry named `name` stands, if there is one.
    pub fn find(&self, name: &str) -> (r: Option<usize>)
        requires
            self.wf(),
        ensures
            r is Some <==> has(self@, name@),
            r matches Some(i) ==> i < self@.len() && self@[i as int].name == name@,
    {
        let (p, found) = self.position(name);
        if found {
            Some(p)
        } else {
            proof {
                lemma_precedes_irreflexive(name@);
            }
            None
        }
    }

    /// The entry at a place.
    pub fn get(&self, i: usize) -> (e: &CacheEntry)
        requires
            i < self@.len(),
        ensures
            e@ == self@[i as int],
    {
        &self.items[i]
    }

    /// Puts an entry under its name, in the place of an earlier entry of
    /// that name if there is one.
    pub fn insert(&mut self, entry: CacheEntry)
        requires
            old(self).wf(),
        ensures
            final(self).wf(),
            final(self)@ == put(old(self)@, entry@),
    {
        let (p, found) = self.position(entry.name.as_str());
        proof {
            lemma_put(self@, entry@, p as int, found);
        }
        let ghost s = self@;
        let ghost e = entry@;
        if found {
            self.items.set(p, entry);
            assert(views(self.items@) =~= s.update(p as int, e));
        } else {
            self.items.insert(p, entry);
            assert(views(self.items@) =~= s.insert(p as int, e));
        }
    }

    /// Makes the entry named `name` an enumeration over the pieces of
    /// `values` between semicolons. Without such an entry nothing changes.
    pub fn set_allowed(&mut self, name: &str, values: &str)
        requires
            old(self).wf(),
        ensures
            final(self).wf(),
            final(self)@ == with_allowed(old(self)@, name@, split(values@, ';')),
    {
        let ghost s = self@;
        let (p, found) = self.position(name);
        proof {
            lemma_precedes_irreflexive(name@);
        }
        if found {
            let e = &mut self.items[p];
            e.entry_type = EntryType::Enum;
            e.set_enum_values(values);
        }
        assert(views(self.items@) =~= with_allowed(s, name@, split(values@, ';')));
    }

    /// Marks the entry named `name` as advanced. Without such an entry
    /// nothing changes.
    pub fn set_advanced(&mut self, name: &str)
        requires
            old(self).wf(),
        ensures
            final(self).wf(),
            final(self)@ == with_advanced(old(self)@, name@),
    {
        let ghost s = self@;
        let (p, found) = self.position(name);
        proof {
            lemma_precedes_irreflexive(name@);
        }
        if found {
            self.items[p].advanced = true;
        }
        assert(views(self.items@) =~= with_advanced(s, name@));
    }

    /// The entries in the order of their names.
    pub fn into_entries(self) -> (v: Vec<CacheEntry>)
        ensures
            views(v@) == self@,
    {
        self.items
    }
}

} // verus!
