//! Inspecting and editing the cache that the configure step of a build
//! leaves behind.
//!
//! `parser` reads the text of a cache into entries (`entry`), with `table`
//! as the mapping from names to entries and `pattern` as the door to the
//! expression engine. `registry` holds the entries of a session and the rows
//! of them that are to be seen, `selection` moves the selected row, `search`
//! edits a query and finds the next name that begins with it, and `mutator`
//! changes a value as its kind allows. `session` puts these under the mode
//! that decides which keys do what. `display` makes the texts to show, and
//! `text` holds what all of them need of characters and strings.

pub mod display;
pub mod entry;
pub mod mutator;
pub mod parser;
pub mod pattern;
pub mod registry;
pub mod search;
pub mod selection;
pub mod session;
pub mod table;
pub mod text;
