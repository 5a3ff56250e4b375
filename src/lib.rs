mod config;
mod laws;
mod search;
mod text;

pub use config::{Config, ConfigError};
pub use laws::{
    law_case_insensitive_keeps_original, law_empty_query_keeps_all, law_order_kept,
    law_search_exact, law_search_repeatable, picked_in_order,
};

pub use search::{
    kept_by_key, line_matches, matching_lines, search, search_case_insensitive, select_matching,
};
pub use text::{has_substring, lines_of, lower_of, newline_from, strip_cr};
