//! The core of a note-taking application's backend: a tag index that keeps
//! notes, their tags and the tags' usage counts in step, and the rules of a
//! flat store of Markdown notes.

pub mod tag;
pub mod note;
pub mod index;
pub mod counting;
pub mod laws;
pub mod store;
pub mod directory;
pub mod front_matter;
