//! A verified duplicate-file detector core: streaming content hashing,
//! size-ordered work scheduling, duplicate grouping keyed by digest, and
//! report rendering. Filesystem enumeration, parallel dispatch and
//! printing live outside; this crate holds and proves the pipeline's
//! logic on plain values.

use vstd::prelude::*;

pub mod group;
pub mod hash;
pub mod laws;
pub mod output;
pub mod render;
pub mod sort;

pub use group::FileHashEntry;
pub use group::duplicate_groups;
pub use group::filter_duplicates;
pub use group::group_by_hash;
pub use hash::StreamHasher;
pub use hash::hash_content;
pub use output::FormatError;
pub use output::OutputFormat;
pub use render::render_human_output;
pub use sort::SizedPath;
pub use sort::sort_by_file_size;

verus! {

} // verus!
