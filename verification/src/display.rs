//! The texts under which entries are shown: labels, details and widths.
//! Drawing them is left to the caller.

use crate::entry::{CacheEntry, EntryType, EntryView};
use crate::registry::EntryRegistry;
use crate::session::{App, Mode};
use crate::table::views;
use vstd::prelude::*;
use vstd::string::{StrSliceExecFns, StringExecFns};

verus! {

/// The label of an entry in the list: its name, behind a star where the
/// value was changed and behind a blank where it was not.
pub open spec fn label(e: EntryView) -> Seq<char> {
    if e.modified() {
        seq!['*'] + e.name
    } else {
        seq![' '] + e.name
    }
}

/// The texts joined, `sep` between each two.
pub open spec fn joined(items: Seq<Seq<char>>, sep: Seq<char>) -> Seq<char>
    decreases items.len(),
{
    if items.len() == 0 {
        Seq::empty()
    } else if items.len() == 1 {
        items[0]
    } else {
        joined(items.drop_last(), sep) + sep + items.last()
    }
}

/// What is told of an entry below the list: its description, and for an
/// enumeration the values it may take.
pub open spec fn detail(e: EntryView) -> Seq<char> {
    if e.entry_type == EntryType::Enum {
        e.desc + "\n\nPossible values: \n"@ + joined(e.values, ", "@)
    } else {
        e.desc
    }
}

/// The length of the longest name.
pub open spec fn widest(entries: Seq<EntryView>) -> nat
    decreases entries.len(),
{
    if entries.len() == 0 {
        0
    } else if widest(entries.drop_last()) >= entries.last().name.len() {
        widest(entries.drop_last())
    } else {
        entries.last().name.len()
    }
}

/// The width that the names need: that of the longest, and 100 where there
/// are no entries.
pub open spec fn name_width(entries: Seq<EntryView>) -> nat {
    if entries.len() == 0 {
        100
    } else {
        widest(entries)
    }
}

/// The label of an entry in the list.
pub fn row_label(entry: &CacheEntry) -> (r: String)
    ensures
        r@ == label(entry@),
{
    let mut r = String::new();
    if entry.is_modified() {
        r.push('*');
    } else {
        r.push(' ');
    }
    r.append(entry.name.as_str());
    assert(r@ =~= label(entry@));
    r
}

/// The texts joined, `sep` between each two.
pub fn join(items: &Vec<String>, sep: &str) -> (r: String)
    ensures
        r@ == joined(crate::text::texts(items@), sep@),
{
    let ghost all = crate::text::texts(items@);
    let mut r = String::new();
    let mut i: usize = 0;
    assert(all.take(0) =~= Seq::<Seq<char>>::empty());
    while i < items.len()
        invariant
            i <= items.len(),
            all == crate::text::texts(items@),
            r@ == joined(all.take(i as int), sep@),
        decreases items.len() - i,
    {
        proof {
            assert(all.take(i + 1).drop_last() =~= all.take(i as int));
            assert(all.take(i + 1).last() == items@[i as int]@);
            assert(Seq::<char>::empty() + items@[i as int]@ =~= items@[i as int]@);
            if i == 0 {
                assert(all.take(1)[0] == items@[0]@);
            }
        }
        if i > 0 {
            r.append(sep);
        }
        r.append(items[i].as_str());
        i = i + 1;
    }
    assert(all.take(items.len() as int) =~= all);
    r
}

/// What is told of an entry below the list.
pub fn detail_text(entry: &CacheEntry) -> (r: String)
    ensures
        r@ == detail(entry@),
{
    let mut r = entry.desc.clone();
    if entry.entry_type == EntryType::Enum {
        r.append("\n\nPossible values: \n");
        let values = join(&entry.values, ", ");
        r.append(values.as_str());
    }
    r
}

/// The width that the names of the entries need.
pub fn name_column_width(entries: &Vec<CacheEntry>) -> (r: usize)
    ensures
        r == name_width(views(entries@)),
{
    if entries.len() == 0 {
        return 100;
    }
    let ghost all = views(entries@);
    let mut width: usize = 0;
    let mut i: usize = 0;
    assert(all.take(0) =~= Seq::<EntryView>::empty());
    while i < entries.len()
        invariant
            i <= entries.len(),
            all == views(entries@),
            width == widest(all.take(i as int)),
        decreases entries.len() - i,
    {
        proof {
            assert(all.take(i + 1).drop_last() =~= all.take(i as int));
            assert(all.take(i + 1).last() == entries@[i as int]@);
        }
        let n = entries[i].name.as_str().unicode_len();
        if n > width {
            width = n;
        }
        i = i + 1;
    }
    assert(all.take(entries.len() as int) =~= all);
    width
}

/// The heading and the text shown below the list: the name and the detail
/// of the selected entry, or a notice that none is selected.
pub fn footer_text(selected: Option<&CacheEntry>) -> (r: (String, String))
    ensures
        match selected {
            Some(e) => r.0@ == e@.name && r.1@ == detail(e@),
            None => r.0@ == "No var"@ && r.1@ == "Nothing selected..."@,
        },
{
    match selected {
        Some(e) => (e.name.clone(), detail_text(e)),
        None => ("No var".to_owned(), "Nothing selected...".to_owned()),
    }
}

/// The two lines of the view of an entry: its name and its kind.
pub fn popup_text(entry: &CacheEntry) -> (r: (String, String))
    ensures
        r.0@ == "Name: "@ + entry@.name,
        r.1@ == "Type: "@ + entry@.entry_type.label(),
{
    let name = "Name: ".to_owned().concat(entry.name.as_str());
    let kind = "Type: ".to_owned().concat(entry.entry_type.to_string().as_str());
    (name, kind)
}

/// The heading shown while a query is composed.
pub fn search_title(query: &str) -> (r: String)
    ensures
        r@ == "Search: "@ + query@,
{
    "Search: ".to_owned().concat(query)
}

/// What a row of the list shows of its entry: the label, the kind and the
/// value.
pub open spec fn row_texts(e: EntryView) -> (Seq<char>, Seq<char>, Seq<char>) {
    (label(e), e.entry_type.label(), e.value)
}

/// The rows of the list: one for each entry that is to be seen, in their
/// order.
pub fn table_rows(registry: &EntryRegistry) -> (rows: Vec<(String, String, String)>)
    requires
        registry.wf(),
    ensures
        rows.len() == registry@.rows().len(),
        forall|k: int|
            0 <= k < rows.len() ==> ((#[trigger] rows[k]).0@, rows[k].1@, rows[k].2@) == row_texts(
                registry@.visible()[k],
            ),
{
    let mut rows: Vec<(String, String, String)> = Vec::new();
    let len = registry.visible_len();
    let mut k: usize = 0;
    while k < len
        invariant
            k <= len,
            registry.wf(),
            len == registry@.rows().len(),
            rows.len() == k,
            forall|j: int|
                0 <= j < k ==> ((#[trigger] rows[j]).0@, rows[j].1@, rows[j].2@) == row_texts(
                    registry@.visible()[j],
                ),
        decreases len - k,
    {
        let e = registry.visible_entry(k).unwrap();
        rows.push((row_label(e), e.entry_type.to_string(), e.value.clone()));
        k = k + 1;
    }
    rows
}

/// The heading and the text below the list: while a query is composed the
/// query under its heading, else what is told of the selected entry.
pub fn footer(app: &App) -> (r: (String, String))
    requires
        app.wf(),
    ensures
        app@.mode == Mode::SearchEditing ==> r.0@ == "Search: "@ + app@.search.text && r.1@
            == Seq::<char>::empty(),
        app@.mode != Mode::SearchEditing ==> match app@.selected {
            Some(row) => r.0@ == app@.registry.visible()[row as int].name && r.1@ == detail(
                app@.registry.visible()[row as int],
            ),
            None => r.0@ == "No var"@ && r.1@ == "Nothing selected..."@,
        },
{
    if app.mode() == Mode::SearchEditing {
        let query = app.search().text();
        (search_title(query.as_str()), String::new())
    } else {
        footer_text(app.get_selected_var())
    }
}

/// The two lines of the view of the selected entry, while that view is
/// open.
pub fn popup(app: &App) -> (r: Option<(String, String)>)
    requires
        app.wf(),
    ensures
        r is Some <==> app@.mode == Mode::Detail && app@.selected is Some,
        r matches Some(lines) ==> {
            let e = app@.registry.visible()[app@.selected->0 as int];
            lines.0@ == "Name: "@ + e.name && lines.1@ == "Type: "@ + e.entry_type.label()
        },
{
    if app.mode() == Mode::Detail {
        match app.get_selected_var() {
            Some(e) => Some(popup_text(e)),
            None => None,
        }
    } else {
        None
    }
}

} // verus!
