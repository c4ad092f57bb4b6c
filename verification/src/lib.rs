//! A concurrent, in-process path router.
//!
//! Paths are matched against registered templates made of fixed segments and
//! named parameters (`/users/{id}`). Each HTTP method owns an independent
//! route table behind its own reader-writer lock, so registrations on one
//! method never block lookups on another. Lookups fall back to the path with
//! one trailing slash removed or added when the exact path has no match; the
//! root path `/` is never stripped.

mod laws;
mod method;
mod path;
mod router;
mod table;

pub use laws::distinct_keys;
pub use laws::lemma_append_fallback;
pub use laws::lemma_both_match_conflict;
pub use laws::lemma_capture_origin;
pub use laws::lemma_captures_bind_declared_names;
pub use laws::lemma_exact_match_wins;
pub use laws::lemma_fixed_only_no_params;
pub use laws::lemma_fresh_table_no_match;
pub use laws::lemma_lookup_idempotent;
pub use laws::lemma_lookup_params_distinct;
pub use laws::lemma_match_unique;
pub use laws::lemma_root_exact_only;
pub use laws::lemma_strip_fallback;
pub use method::HttpMethod;
pub use path::parse_route;
pub use path::parse_seg;
pub use path::parse_template;
pub use path::seg_views;
pub use path::split_path;
pub use path::split_slash;
pub use path::views_of;
pub use path::SegView;
pub use path::Segment;
pub use router::HttpRouter;
pub use router::TableWf;
pub use table::captures;
pub use table::captures_upto;
pub use table::found_view;
pub use table::has_conflict;
pub use table::later_overrides;
pub use table::insert_outcome;
pub use table::pairs_view;
pub use table::table_at;
pub use table::table_lookup;
pub use table::route_matches;
pub use table::routes_conflict;
pub use table::seg_matches;
pub use table::seg_overlap;
pub use table::table_wf;
pub use table::Handler;
pub use table::RouteTable;
pub use table::RouteView;
pub use table::RouterError;
