//! Composes a packaged document from authored files: Markdown and markup,
//! style sheets and other files go in, and what comes out is the plan of a
//! package with its chapters, its navigation document, its manifest and its
//! reading order.
//!
//! The library never touches the file system. It is handed what was found
//! there, and it hands back what is to be done there: see `compose`.

use vstd::prelude::*;

pub mod archive;
pub mod compose;
pub mod data;
pub mod error;
pub mod listing;
pub mod load;
pub mod markdown;
pub mod markup;
pub mod media_type;
pub mod message;
pub mod order;
pub mod path;
pub mod text;
pub mod tmpfile;
pub mod toc;

verus! {

/// The deepest heading level that takes part in the table of contents.
pub const MAX_HEADING_LEVEL: u8 = 5;

} // verus!
