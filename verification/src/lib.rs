//! Film viewings in an archive of notes.
//!
//! The archive is a tree of numbered folders that hold numbered markdown
//! notes. A viewing is recorded as an entry of five lines at the end of the
//! latest note, and the viewings on record are read back from the notes by
//! the marker that opens each entry.
//!
//! - [`rules`]: which names count as folders and as notes.
//! - [`collector`]: the walk that gathers the notes, one directory at a time.
//! - [`tree`]: the same walk through a tree held in memory, with the proof
//!   of what it gathers.
//! - [`latest`]: the note that new entries go to.
//! - [`entry`]: the text of an entry, its time and its identifier.
//! - [`listing`]: the entries on record in a note.
//! - [`roundtrip`]: what is appended is what is listed.
//! - [`path`], [`text`]: paths, strings, and the order they sort by.
//! - [`trusted`]: what is believed of the code that the library calls
//!   outside itself.
//!
//! Reading directories and files, and appending to a note, is left to the
//! caller.

pub mod collector;
pub mod entry;
pub mod latest;
pub mod listing;
pub mod path;
pub mod roundtrip;
pub mod rules;
pub mod text;
pub mod tree;
pub mod trusted;

pub use crate::entry::append_film_viewing;
pub use crate::latest::get_last_not_path;
pub use crate::listing::list_film_viewings;
pub use crate::tree::get_pathes;
