use path_to_regexp::{
    escape_group, escape_string, flags, match_str, parse, to_pattern_source, to_regexp, Container,
    Match, Options,
};

fn defaults() -> Options {
    Options::default()
}

fn compile_and_match(template: &str, options: Options, input: &str) -> Vec<Match> {
    let containers = parse(template, options);
    let options2 = Options::default();
    let re = to_regexp(&containers, options2).expect("pattern must compile");
    match_str(input, re, containers)
}

fn pattern_of(template: &str, options: &Options) -> String {
    let containers = parse(
        template,
        Options {
            delimiter: options.delimiter,
            whitelist: options.whitelist.clone(),
            strict: options.strict,
            sensitive: options.sensitive,
            end: options.end,
            start: options.start,
            ends_with: options.ends_with.clone(),
        },
    );
    to_pattern_source(&containers, options)
}

fn is_match(template: &str, options: Options, input: &str) -> bool {
    let src = pattern_of(template, &options);
    let re = fancy_regex::Regex::new(&src).expect("pattern must compile");
    re.is_match(input).unwrap()
}

#[test]
fn literal_round_trip() {
    // A template of literal characters only: the compiled pattern matches the
    // template itself and the parameter list is empty.
    let template = "/foo";
    let containers = parse(template, defaults());
    assert_eq!(containers.len(), 1);
    assert_eq!(containers[0].path, "/foo");
    assert!(containers[0].token.is_none());
    let src = to_pattern_source(&containers, &defaults());
    let re = fancy_regex::Regex::new(&src).unwrap();
    assert!(re.is_match(template).unwrap());
    let re2 = to_regexp(&containers, defaults()).unwrap();
    let ms = match_str(template, re2, containers);
    assert!(ms.is_empty());
}

#[test]
fn empty_template_yields_no_segments() {
    let containers = parse("", defaults());
    assert!(containers.is_empty());
}

#[test]
fn named_capture_recovery() {
    let ms = compile_and_match("/user/:id", defaults(), "/user/42");
    assert_eq!(ms.len(), 1);
    assert_eq!(ms[0].name, "id");
    assert_eq!(ms[0].value, "42");
}

#[test]
fn unnamed_auto_indexing() {
    let containers = parse("/(.*)/(.*)", defaults());
    let names: Vec<String> = containers
        .iter()
        .filter_map(|c: &Container| c.token.as_ref().map(|t| t.name.clone()))
        .collect();
    assert_eq!(names, vec!["0".to_string(), "1".to_string()]);
    let ms = compile_and_match("/(.*)/(.*)", defaults(), "/a/b");
    assert_eq!(ms.len(), 2);
    assert_eq!(ms[0].name, "0");
    assert_eq!(ms[0].value, "a");
    assert_eq!(ms[1].name, "1");
    assert_eq!(ms[1].value, "b");
}

#[test]
fn auto_indexing_skips_named_parameters() {
    let containers = parse("/:a/(.*)/:b/(.*)", defaults());
    let names: Vec<String> = containers
        .iter()
        .filter_map(|c: &Container| c.token.as_ref().map(|t| t.name.clone()))
        .collect();
    assert_eq!(
        names,
        vec!["a".to_string(), "0".to_string(), "b".to_string(), "1".to_string()]
    );
}

#[test]
fn optional_parameter_present() {
    let ms = compile_and_match("/user/:id?", defaults(), "/user/7");
    assert_eq!(ms.len(), 1);
    assert_eq!(ms[0].name, "id");
    assert_eq!(ms[0].value, "7");
}

#[test]
fn optional_parameter_empty_prefix_shape() {
    // The optional parameter's prefix stays inside the preceding literal
    // under the empty-whitelist policy, so the optional group wraps only the
    // value; the literal's trailing delimiter remains mandatory and the bare
    // "/user" does not match.
    let src = pattern_of("/user/:id?", &defaults());
    assert_eq!(src, "(?i)^\\/user\\/(?:([^\\/]+?))?(?:\\/)?$");
    let re = fancy_regex::Regex::new(&src).unwrap();
    assert!(!re.is_match("/user").unwrap());
    assert!(re.is_match("/user/7").unwrap());
}

#[test]
fn optional_parameter_with_prefix_shape() {
    // With a whitelisted prefix the capturing group wraps only the value and
    // the prefix is dropped from the emitted pattern: the group itself stays
    // mandatory.  This asymmetry is part of the compiled-pattern contract.
    let options = Options {
        whitelist: vec!["/".to_string()],
        ..Options::default()
    };
    let src = pattern_of("/user/:id?", &options);
    assert_eq!(src, "(?i)^\\/user([^\\/]+?)(?:\\/)?$");
}

#[test]
fn whitelisted_prefix_recovery() {
    let options = Options {
        whitelist: vec!["/".to_string()],
        ..Options::default()
    };
    let containers = parse("/user/:id", options);
    assert_eq!(containers.len(), 2);
    assert_eq!(containers[0].path, "/user");
    let tok = containers[1].token.as_ref().unwrap();
    assert_eq!(tok.prefix, "/");
    assert_eq!(tok.delimiter, '/');
    let options2 = Options {
        whitelist: vec!["/".to_string()],
        ..Options::default()
    };
    let re = to_regexp(&containers, options2).unwrap();
    let ms = match_str("/user/42", re, containers);
    assert_eq!(ms.len(), 1);
    assert_eq!(ms[0].name, "id");
    assert_eq!(ms[0].value, "42");
}

#[test]
fn repeat_parameter_spans_occurrences() {
    // The single capturing group of a repeated parameter spans all of its
    // delimiter-separated occurrences: fancy-regex reports the whole span as
    // the group's text.
    let ms = compile_and_match("/:path+", defaults(), "/a/b/c");
    assert_eq!(ms.len(), 1);
    assert_eq!(ms[0].name, "path");
    assert_eq!(ms[0].value, "a/b/c");
}

#[test]
fn non_strict_trailing_delimiter() {
    assert!(is_match("/user", defaults(), "/user"));
    assert!(is_match("/user", defaults(), "/user/"));
    let strict = Options {
        strict: true,
        ..Options::default()
    };
    assert!(is_match("/user", strict, "/user"));
    let strict2 = Options {
        strict: true,
        ..Options::default()
    };
    assert!(!is_match("/user", strict2, "/user/"));
}

#[test]
fn prefix_boundary_safety() {
    let open_end = Options {
        end: false,
        ..Options::default()
    };
    assert!(!is_match("/user", open_end, "/username"));
    let open_end2 = Options {
        end: false,
        ..Options::default()
    };
    assert!(is_match("/user", open_end2, "/user/42"));
}

#[test]
fn literal_metacharacter_is_escaped() {
    assert!(is_match("/u.er", defaults(), "/u.er"));
    assert!(!is_match("/u.er", defaults(), "/uxer"));
}

#[test]
fn escape_string_escapes_metacharacters() {
    assert_eq!(escape_string("a.b/c".to_string()), "a\\.b\\/c");
    assert_eq!(escape_string("plain".to_string()), "plain");
    assert_eq!(
        escape_string(".+*?=^!:${}()[]|/\\".to_string()),
        "\\.\\+\\*\\?\\=\\^\\!\\:\\$\\{\\}\\(\\)\\[\\]\\|\\/\\\\"
    );
}

#[test]
fn escape_group_escapes_group_metacharacters() {
    assert_eq!(escape_group("=!:$/()".to_string()), "\\=\\!\\:\\$\\/\\(\\)");
    assert_eq!(escape_group("\\d+".to_string()), "\\d+");
}

#[test]
fn custom_capture_pattern() {
    let ms = compile_and_match("/user/:id(\\d+)", defaults(), "/user/42");
    assert_eq!(ms.len(), 1);
    assert_eq!(ms[0].name, "id");
    assert_eq!(ms[0].value, "42");
    let ms2 = compile_and_match("/user/:id(\\d+)", defaults(), "/user/ab");
    assert!(ms2.is_empty());
}

#[test]
fn invalid_custom_pattern_is_reported() {
    // "[" alone is a valid capture-pattern body for the tokenizer but an
    // invalid regex fragment: the engine's rejection surfaces as an error.
    let containers = parse("/:id([)", defaults());
    let r = to_regexp(&containers, defaults());
    assert!(r.is_err());
    assert!(!r.err().unwrap().message.is_empty());
}

#[test]
fn escaped_character_becomes_literal() {
    let containers = parse("\\:foo", defaults());
    assert_eq!(containers.len(), 1);
    assert_eq!(containers[0].path, ":foo");
    assert!(is_match("\\:foo", defaults(), ":foo"));
}

#[test]
fn unterminated_group_degrades_to_literal() {
    let containers = parse("/(ab", defaults());
    assert_eq!(containers.len(), 1);
    assert_eq!(containers[0].path, "/(ab");
}

#[test]
fn case_sensitivity_flag() {
    assert!(is_match("/User", defaults(), "/user"));
    let sensitive = Options {
        sensitive: true,
        ..Options::default()
    };
    assert!(!is_match("/User", sensitive, "/user"));
}

#[test]
fn flags_prepends_insensitive_marker() {
    assert_eq!(flags("abc", Options::default()), "(?i)abc");
    let sensitive = Options {
        sensitive: true,
        ..Options::default()
    };
    assert_eq!(flags("abc", sensitive), "abc");
}

#[test]
fn ends_with_terminators() {
    let options = Options {
        ends_with: vec!["?".to_string()],
        ..Options::default()
    };
    let src = pattern_of("/user", &options);
    assert_eq!(src, "(?i)^\\/user(?:\\/)?(?=\\?|$)");
    let re = fancy_regex::Regex::new(&src).unwrap();
    assert!(re.is_match("/user?query=1").unwrap());
    assert!(re.is_match("/user").unwrap());
    assert!(!re.is_match("/userx").unwrap());
}

#[test]
fn no_match_yields_empty_list() {
    let ms = compile_and_match("/user/:id", defaults(), "/other/42");
    assert!(ms.is_empty());
}

#[test]
fn modifier_star_is_optional_and_repeating() {
    let containers = parse("/:path*", defaults());
    let tok = containers[1].token.as_ref().unwrap();
    assert!(tok.optional);
    assert!(tok.repeat);
    let containers2 = parse("/:path+", defaults());
    let tok2 = containers2[1].token.as_ref().unwrap();
    assert!(!tok2.optional);
    assert!(tok2.repeat);
}

#[test]
fn segments_are_literal_or_parameter() {
    let containers = parse("/user/:id/(.*)", defaults());
    for c in &containers {
        let is_literal = !c.path.is_empty() && c.token.is_none();
        let is_parameter = c.path.is_empty() && c.token.is_some();
        assert!(is_literal != is_parameter && (is_literal || is_parameter));
    }
    assert_eq!(containers.len(), 4);
    assert_eq!(containers[0].path, "/user/");
    assert_eq!(containers[1].token.as_ref().unwrap().name, "id");
    assert_eq!(containers[2].path, "/");
    assert_eq!(containers[3].token.as_ref().unwrap().name, "0");
}

#[test]
fn prefix_overrides_token_delimiter() {
    // A whitelisted prefix that differs from the default delimiter widens the
    // excluded set of the synthesized pattern to both characters.
    let options = Options {
        whitelist: vec![",".to_string()],
        ..Options::default()
    };
    let containers = parse("/a,:b", options);
    let tok = containers[1].token.as_ref().unwrap();
    assert_eq!(tok.prefix, ",");
    assert_eq!(tok.delimiter, ',');
    assert_eq!(tok.pattern, "[^,\\/]+?");
}

#[test]
fn unanchored_start() {
    let options = Options {
        start: false,
        ..Options::default()
    };
    let src = pattern_of("/user", &options);
    assert_eq!(src, "(?i)\\/user(?:\\/)?$");
    let re = fancy_regex::Regex::new(&src).unwrap();
    assert!(re.is_match("/api/user").unwrap());
}

#[test]
fn escaped_prefix_is_not_absorbed() {
    // An escape just before a marker suppresses prefix absorption even with a
    // whitelist that would otherwise take the preceding character.
    let options = Options {
        whitelist: vec!["/".to_string()],
        ..Options::default()
    };
    let containers = parse("\\/:id", options);
    assert_eq!(containers.len(), 2);
    assert_eq!(containers[0].path, "/");
    let tok = containers[1].token.as_ref().unwrap();
    assert_eq!(tok.prefix, "");
    assert_eq!(tok.delimiter, '/');
}

#[test]
fn full_length_capture_is_skipped() {
    // A capture whose text is as long as the whole match is dropped from the
    // results; a shorter capture of the same input is kept.
    let ms = compile_and_match("(.*)", defaults(), "abc");
    assert!(ms.is_empty());
    let ms2 = compile_and_match("/(.*)", defaults(), "/abc");
    assert_eq!(ms2.len(), 1);
    assert_eq!(ms2[0].name, "0");
    assert_eq!(ms2[0].value, "abc");
}

#[test]
fn open_end_with_terminators() {
    let options = Options {
        end: false,
        ends_with: vec!["?".to_string()],
        ..Options::default()
    };
    let src = pattern_of("/user", &options);
    assert_eq!(src, "(?i)^\\/user(?:\\/(?=\\?|$))?(?=\\/|\\?|$)");
    let re = fancy_regex::Regex::new(&src).unwrap();
    assert!(re.is_match("/user?page=2").unwrap());
    assert!(re.is_match("/user/").unwrap());
    assert!(!re.is_match("/userx").unwrap());
}

#[test]
fn escape_group_is_not_escape_pair_aware() {
    // Per-character escaping turns the pair "\(" into an escaped backslash
    // followed by a bare group-open, so such a custom pattern adds a
    // capturing group of its own to the compiled source.
    assert_eq!(escape_group("\\(".to_string()), "\\\\(");
    let containers = parse("/:id(\\()", defaults());
    let tok = containers[1].token.as_ref().unwrap();
    assert_eq!(tok.pattern, "\\\\(");
}

#[test]
fn parameter_names_are_ascii_words() {
    // A non-ASCII letter ends a parameter name: the rest of the marker is
    // literal text.
    let containers = parse("/:h\u{e9}llo", defaults());
    assert_eq!(containers.len(), 3);
    assert_eq!(containers[0].path, "/");
    assert_eq!(containers[1].token.as_ref().unwrap().name, "h");
    assert_eq!(containers[2].path, "\u{e9}llo");
}
