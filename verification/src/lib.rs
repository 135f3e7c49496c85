//! A small line-oriented substring searcher.
//!
//! The library scans text for lines that contain a query, either with the
//! exact case or after lowercasing both sides, and aggregates the matching
//! lines of a whole directory tree with a fail-fast policy for unreadable
//! files.

mod config;
mod scan;
mod tree;

pub use config::string_to_bool;
pub use config::Config;
pub use scan::contains_at;
pub use scan::has_substring;
pub use scan::lemma_empty_contents_no_matches;
pub use scan::lemma_empty_query_matches_all;
pub use scan::lemma_insensitive_query_case;
pub use scan::line_hit;
pub use scan::line_seq;
pub use scan::lower_of;
pub use scan::matches_of;
pub use scan::scan_lines;
pub use scan::search_case_insensitive;
pub use scan::search_case_sensitive;
pub use tree::entry_like;
pub use tree::lemma_fail_fast;
pub use tree::lemma_search_repeatable;
pub use tree::plan_search;
pub use tree::plan_walk;
pub use tree::lemma_tagged_projects_to_plain;
pub use tree::search_entries;
pub use tree::search_entries_tagged;
pub use tree::tagged_tree_outcome;
pub use tree::tree_outcome;
pub use tree::TaggedScanOutcome;
pub use tree::FileEntry;
pub use tree::ScanOutcome;
pub use tree::SearchError;
