//! High-level threading API for NNTP.
//!
//! - [`ThreadedArticleRef`]: A lightweight reference to an article with threading metadata
//! - [`ThreadNode`]: A node in the thread tree containing an article and its replies
//! - [`Thread`]: A complete discussion thread as a tree structure
//! - [`ThreadCollection`]: A collection of threads from a newsgroup

pub mod types;
pub mod algorithm;
pub mod builder;
pub mod incremental;
pub mod backfill;

pub use algorithm::{build_threads, normalize_subject};
pub use builder::{ArticleBuilder, FetchedArticle};
pub use incremental::{FetchOptions, IncrementalThreadBuilder};
pub use types::{
    Thread, ThreadCollection, ThreadIterator, ThreadNode, ThreadNodeIterator, ThreadedArticleRef,
};
