use commit_artist::settings::{parse_patterns, Settings};

#[test]
fn settings_constructor() {
    Settings::new("./", "0000000", 20, 10);
}

#[test]
fn settings_constructor_multi_pattern() {
    let s = Settings::new("./", "1111111,2222222", 20, 10);
    assert_eq!(s.patterns, vec!["1111111", "2222222"]);
}

#[test]
fn settings_constructor_multi_pattern_with_spaces() {
    let s = Settings::new("./", "1111111, 2222222", 20, 10);
    assert_eq!(s.patterns, vec!["1111111", "2222222"]);
}

#[test]
fn constructor_keeps_path_block_and_jobs() {
    let s = Settings::new("/repo", "abc", 5, 3);
    assert_eq!(s.path, "/repo");
    assert_eq!(s.patterns, vec!["abc"]);
    assert_eq!(s.block_size, 5);
    assert_eq!(s.jobs, 3);
}

#[test]
fn invalid_pattern_is_refused() {
    assert!(parse_patterns("invalidpattern").is_none());
}

#[test]
fn invalid_pattern_in_list_is_refused() {
    assert!(parse_patterns("1111111,invalidpattern").is_none());
}

#[test]
fn empty_pieces_are_refused() {
    assert!(parse_patterns("").is_none());
    assert!(parse_patterns("11,,22").is_none());
    assert!(parse_patterns("11,").is_none());
}

#[test]
fn upper_case_and_long_patterns_are_refused() {
    assert!(parse_patterns("ABC").is_none());
    assert!(parse_patterns(&"0".repeat(41)).is_none());
    assert_eq!(parse_patterns(&"0".repeat(40)).unwrap(), vec!["0".repeat(40)]);
}

#[test]
fn pieces_are_trimmed_of_unicode_whitespace() {
    let p = parse_patterns("\tabc \u{3000},\u{a0}0f\n").unwrap();
    assert_eq!(p, vec!["abc", "0f"]);
}

#[test]
fn patterns_setter_replaces_only_patterns() {
    let mut s = Settings::new("./", "0000000", 20, 10);
    s.patterns("12, 34");
    assert_eq!(s.patterns, vec!["12", "34"]);
    assert_eq!(s.block_size, 20);
    assert_eq!(s.jobs, 10);
}

#[test]
fn jobs_and_block_size_setters() {
    let mut s = Settings::new("./", "0000000", 20, 10);
    s.jobs(4);
    s.block_size(28);
    assert_eq!(s.jobs, 4);
    assert_eq!(s.block_size, 28);
    assert_eq!(s.patterns, vec!["0000000"]);
}

#[test]
fn default_settings_for_cpu_count() {
    let s = Settings::with_cpus("/here", 8);
    assert_eq!(s.path, "/here");
    assert_eq!(s.patterns, vec!["0000000"]);
    assert_eq!(s.block_size, 20);
    assert_eq!(s.jobs, 7);
}

#[test]
fn default_at_uses_one_thread_less_than_cpus() {
    match Settings::default_at("/there") {
        Some(s) => {
            assert_eq!(s.path, "/there");
            assert_eq!(s.patterns, vec!["0000000"]);
            assert_eq!(s.block_size, 20);
            assert!(s.jobs >= 1);
        }
        None => {}
    }
}

#[test]
fn for_cpus_needs_two_processors() {
    assert!(Settings::for_cpus("/x", 0).is_none());
    assert!(Settings::for_cpus("/x", 1).is_none());
    let s = Settings::for_cpus("/x", 2).unwrap();
    assert_eq!(s.jobs, 1);
    assert_eq!(s.patterns, vec!["0000000"]);
    assert_eq!(s.block_size, 20);
}

#[test]
fn patterns_setter_agrees_with_the_constructor() {
    let mut s = Settings::new("./repo", "0000000", 24, 3);
    s.patterns("ab, cd ,ef");
    let t = Settings::new("./repo", "ab, cd ,ef", 24, 3);
    assert_eq!(s.path, t.path);
    assert_eq!(s.patterns, t.patterns);
    assert_eq!(s.block_size, t.block_size);
    assert_eq!(s.jobs, t.jobs);
}
