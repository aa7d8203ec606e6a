//! Read-side tools over an indexed code graph.

pub mod answer_laws;
pub mod blast;
pub mod callers;
pub mod choice_laws;
pub mod clusters;
pub mod context;
pub mod context_laws;
pub mod deps;
pub mod deps_laws;
pub mod detail_laws;
pub mod docs;
pub mod exec_path;
pub mod fine_laws;
pub mod global;
pub mod global_laws;
pub mod graph;
pub mod graph_json;
pub mod graph_laws;
pub mod grep;
pub mod json;
pub mod json_laws;
pub mod lang;
pub mod lang_laws;
pub mod lines;
pub mod map_bounds;
pub mod map_laws;
pub mod names;
pub mod noise;
pub mod notes;
pub mod order;
pub mod overview;
pub mod overview_laws;
pub mod pattern;
pub mod pattern_laws;
pub mod picks;
pub mod radius;
pub mod rank;
pub mod readback;
pub mod refs;
pub mod registry;
pub mod refs_laws;
pub mod regions;
pub mod repo_map;
pub mod retrieval;
pub mod roles;
pub mod rules;
pub mod sanitize;
pub mod search;
pub mod sections;
pub mod seed_laws;
pub mod seeds;
pub mod shared_laws;
pub mod snippet_laws;
pub mod snippets;
pub mod split;
pub mod stats;
pub mod store;
pub mod text;
pub mod text_laws;
pub mod trace;
pub mod width;
