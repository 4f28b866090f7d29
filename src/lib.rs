//! Reading line-oriented logs from several sources, numbering and filtering
//! their lines, and merging the per-source sequences into one ordered
//! sequence through a lazy two-way merge folded pairwise over all sources.
use vstd::prelude::*;

pub mod error;
pub mod lines;
pub mod matching;
pub mod merge;
pub mod pipeline;
pub mod text;

pub use error::Error;
pub use lines::{Line, LineItem};
pub use matching::{match_lines, MatchResult, MatchedLine};
pub use merge::{drain, merge, Buffers, MergedStream, Printer, Source, VecSource};
pub use pipeline::{filter_and_merge, filter_lines, fold_merge, number_and_filter};

verus! {

} // verus!
