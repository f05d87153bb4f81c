mod chars;
mod laws;
mod matching;
mod route;
mod rx;
mod scan;
mod types;

pub use chars::{
    dec_digit, dec_str, escape_group, escape_string, is_group_meta_char, is_meta_char,
    is_word_char, spec_escape_group, spec_escape_string,
};
pub use laws::{
    cap_opens, group_neutral, law_default_pattern_neutral, law_escape_string_well_escaped,
    law_literal_template_no_params, law_one_group_per_parameter, law_parse_names,
    law_parse_well_formed, no_dangling_escape, param_count, well_escaped,
};
pub use matching::{
    extract_from, extract_matches, full_match_len, group_views, lemma_groups_exhausted,
    lemma_literal_extract_empty, match_str, spec_extract,
};
pub use route::{
    body_source, ends_with_source, flags, is_end_delimited, pattern_source, seg_source,
    spec_flags, tail_source, to_pattern_source, token_source,
};
pub use rx::{captures_of, captures_views, regex_compiles, source_of, to_regexp, PatternError};
pub use scan::{
    default_pattern, group_at, in_whitelist, is_modifier, make_token, marker_names, param_at,
    param_names, parse, prefix_split, scan_from, spec_parse, unit_end, word_end, ParamMatch,
};
pub use types::{
    container_models, match_models, spec_default_options, wf_container, Container, ContainerModel,
    Match, MatchModel, Options, OptionsModel, Token, TokenModel, DEFAULT_DELIMITER,
};
