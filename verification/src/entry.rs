//! The entries of a cache: their kinds, their fields, and the one field that
//! changes after loading.

use crate::mutator::{cycle_enum, cycled, toggle_bool, toggled};
use crate::text::{same_text, split, split_text, texts};
use vstd::prelude::*;

verus! {

/// The kind of value an entry holds.
#[allow(non_camel_case_types)]
#[derive(Debug, PartialEq, Eq, Clone, Copy, Structural)]
pub enum EntryType {
    Bool,
    Str,
    Enum,
    Filepath,
    Dirpath,
    Int,
    INTERNAL,
    Static,
}

/// The kind that a type token of a declaration names, if it names one.
pub open spec fn kind_of_token(token: Seq<char>) -> Option<EntryType> {
    if token == "BOOL"@ {
        Some(EntryType::Bool)
    } else if token == "FILEPATH"@ {
        Some(EntryType::Filepath)
    } else if token == "STRING"@ {
        Some(EntryType::Str)
    } else if token == "STATIC"@ {
        Some(EntryType::Static)
    } else if token == "PATH"@ {
        Some(EntryType::Dirpath)
    } else {
        None
    }
}

impl EntryType {
    /// The kind named by a type token; `None` for a token that names none.
    pub fn from_str(s: &str) -> (r: Option<EntryType>)
        ensures
            r == kind_of_token(s@),
    {
        if same_text(s, "BOOL") {
            Some(EntryType::Bool)
        } else if same_text(s, "FILEPATH") {
            Some(EntryType::Filepath)
        } else if same_text(s, "STRING") {
            Some(EntryType::Str)
        } else if same_text(s, "STATIC") {
            Some(EntryType::Static)
        } else if same_text(s, "PATH") {
            Some(EntryType::Dirpath)
        } else {
            None
        }
    }

    /// The name under which the kind is shown.
    pub open spec fn label(self) -> Seq<char> {
        match self {
            EntryType::Bool => "Bool"@,
            EntryType::Str => "Str"@,
            EntryType::Enum => "Enum"@,
            EntryType::Filepath => "Filepath"@,
            EntryType::Dirpath => "Dirpath"@,
            EntryType::Int => "Int"@,
            EntryType::INTERNAL => "INTERNAL"@,
            EntryType::Static => "Static"@,
        }
    }

    /// The name under which the kind is shown.
    pub fn to_string(&self) -> (r: String)
        ensures
            r@ == self.label(),
    {
        match self {
            EntryType::Bool => "Bool".to_owned(),
            EntryType::Str => "Str".to_owned(),
            EntryType::Enum => "Enum".to_owned(),
            EntryType::Filepath => "Filepath".to_owned(),
            EntryType::Dirpath => "Dirpath".to_owned(),
            EntryType::Int => "Int".to_owned(),
            EntryType::INTERNAL => "INTERNAL".to_owned(),
            EntryType::Static => "Static".to_owned(),
        }
    }
}

/// One entry of the cache.
#[derive(Clone, Debug)]
pub struct CacheEntry {
    pub name: String,
    pub entry_type: EntryType,
    pub desc: String,
    pub value: String,
    pub values: Vec<String>,
    pub advanced: bool,
    /// The value as it was read; `value` is compared with it.
    pub original: String,
}

/// An entry as plain mathematical values.
pub struct EntryView {
    pub name: Seq<char>,
    pub entry_type: EntryType,
    pub desc: Seq<char>,
    pub value: Seq<char>,
    pub values: Seq<Seq<char>>,
    pub advanced: bool,
    pub original: Seq<char>,
}

impl EntryView {
    /// Whether the value differs from the one that was read.
    pub open spec fn modified(self) -> bool {
        self.value != self.original
    }

    /// The entry with another current value.
    pub open spec fn with_value(self, value: Seq<char>) -> EntryView {
        EntryView { value, ..self }
    }

    /// The entry after the value transition that its kind calls for: a
    /// toggle for `Bool`, a step through the allowed values for `Enum`,
    /// nothing for the other kinds.
    pub open spec fn stepped(self) -> EntryView {
        match self.entry_type {
            EntryType::Bool => self.with_value(toggled(self.value)),
            EntryType::Enum => self.with_value(cycled(self.values, self.value)),
            _ => self,
        }
    }
}

impl View for CacheEntry {
    type V = EntryView;

    open spec fn view(&self) -> EntryView {
        EntryView {
            name: self.name@,
            entry_type: self.entry_type,
            desc: self.desc@,
            value: self.value@,
            values: texts(self.values@),
            advanced: self.advanced,
            original: self.original@,
        }
    }
}

impl CacheEntry {
    /// An entry as a declaration gives it: nothing allowed, not advanced,
    /// and unmodified.
    pub fn new(name: String, entry_type: EntryType, desc: String, value: String) -> (e: Self)
        ensures
            e@ == (EntryView {
                name: name@,
                entry_type,
                desc: desc@,
                value: value@,
                values: Seq::<Seq<char>>::empty(),
                advanced: false,
                original: value@,
            }),
    {
        let original = value.clone();
        let e = Self {
            name,
            entry_type,
            desc,
            value,
            values: Vec::new(),
            advanced: false,
            original,
        };
        assert(texts(e.values@) =~= Seq::<Seq<char>>::empty());
        e
    }

    /// Sets the allowed values to the pieces of `values_str` between
    /// semicolons.
    pub fn set_enum_values(&mut self, values_str: &str)
        ensures
            final(self)@ == (EntryView { values: split(values_str@, ';'), ..old(self)@ }),
    {
        self.values = split_text(values_str, ';');
    }

    /// Replaces the value by its opposite boolean spelling.
    pub fn toggle_bool(&mut self)
        ensures
            final(self)@ == old(self)@.with_value(toggled(old(self)@.value)),
    {
        self.value = toggle_bool(self.value.as_str());
    }

    /// Replaces the value by the allowed value that follows it.
    pub fn cycle_enum(&mut self)
        ensures
            final(self)@ == old(self)@.with_value(cycled(old(self)@.values, old(self)@.value)),
    {
        self.value = cycle_enum(&self.values, self.value.as_str());
    }

    /// Applies the value transition that the entry's kind calls for.
    pub fn step_value(&mut self)
        ensures
            final(self)@ == old(self)@.stepped(),
    {
        match self.entry_type {
            EntryType::Bool => self.toggle_bool(),
            EntryType::Enum => self.cycle_enum(),
            _ => {},
        }
    }

    /// Whether the value differs from the one that was read.
    pub fn is_modified(&self) -> (r: bool)
        ensures
            r == self@.modified(),
    {
        !(self.value == self.original)
    }
}

} // verus!
