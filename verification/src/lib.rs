//! Reading the mount table, the text that the kernel shows under
//! `/proc/mounts`: one line of it into a mount entry, a whole table into
//! entries, and questions asked of those entries.
//!
//! - [`parse`] reads one line: six fields set apart by spaces and tabs.
//! - [`iter`] walks a table line by line, with or without a criterion of
//!   [`search`] that the entries have to meet.
//! - [`query`] answers what is mounted below a directory, on a path, and
//!   what a path resolves to.
//! - [`overlap`] takes away the mounts that a later mount hides.
//! - [`path`], [`order`], [`text`] and [`number`] say what a path, the order
//!   of paths, a field and a number are.
//! - [`layout`] shows that the white space of a line counts for nothing, and
//!   that a line that was written out is read back.
//!
//! The library reads no file. A table comes to it as lines of text, each one
//! read or failed to be read by whoever holds the file.

pub mod error;
pub mod iter;
pub mod layout;
pub mod number;
pub mod order;
pub mod overlap;
pub mod parse;
pub mod path;
pub mod query;
pub mod search;
pub mod text;

pub use crate::error::{LineError, ParseError, ParseErrorKind};
pub use crate::iter::{read_line, MountIter};
pub use crate::overlap::VecMountEntry;
pub use crate::parse::{DumpField, MntOps, MountEntry, PassField};
pub use crate::path::MountPath;
pub use crate::query::{
    get_mount_at, get_mount_from, get_mount_search_from, get_mount_writable_from,
    get_submounts_from,
};
pub use crate::search::Search;
