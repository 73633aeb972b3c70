//! The content and history engine of a read-only web front end for git
//! repositories: which repositories are served, how history is paged and which
//! commit last touched a path, how tags are ordered, how READMEs, files and diffs
//! are laid out. Reading the object store and highlighting code happen outside;
//! the functions here take what was read and decide what is shown.

pub mod blob;
pub mod config;
pub mod cursor;
pub mod diff;
pub mod gateway;
pub mod gitweb;
pub mod history;
pub mod readme;
pub mod refs;
pub mod text;
