use commit_artist::command::{commit_tree_args, commit_tree_env};
use commit_artist::git::commit_object::CommitObject;
use commit_artist::search::{chain_digest, search_block, search_step, BlockOutcome, StepOutcome};
use commit_artist::text::{decimal_string, hex_string};
use std::sync::atomic::AtomicBool;

const ROOT_TEXT: &str = "tree 4b825dc642cb6eb9a060e54bf8d69288fbee4904\nauthor Alice Example <alice@example.com> 1600000000 +0900\ncommitter Bob Builder <bob@example.org> 1600000100 +0900\n\nInitial commit\n";

const CHILD_TEXT: &str = "tree 4b825dc642cb6eb9a060e54bf8d69288fbee4904\nparent 0123456789abcdef0123456789abcdef01234567\nauthor Zoë Ünïcode <zoe@example.com> 1600000000 +0900\ncommitter Bob Builder <bob@example.org> 1600000100 +0900\n\nSecond\n\nbody ✓\n";

#[test]
fn hex_and_decimal_notation() {
    assert_eq!(hex_string(&[0x00, 0x0f, 0xa9, 0xff]), "000fa9ff");
    assert_eq!(hex_string(&[]), "");
    assert_eq!(decimal_string(0), "0");
    assert_eq!(decimal_string(1234567890), "1234567890");
    assert_eq!(decimal_string(usize::MAX), usize::MAX.to_string());
}

#[test]
fn midstate_hash_equals_full_hash() {
    let co = CommitObject::parse_cat_file(CHILD_TEXT);
    let framed = co.with_committer_name("a".repeat(40));
    let prefix = framed.prefix_hasher();
    let suffix = framed.suffix_bytes();
    let name = "0123456789abcdef0123456789abcdef01234567".to_string();
    let d = chain_digest(&prefix, &suffix, &name);
    assert_eq!(hex_string(&d), co.with_committer_name(name).to_sha1());
}

#[test]
fn own_name_midstate_gives_the_commit_id() {
    let co = CommitObject::parse_cat_file(ROOT_TEXT);
    let d = chain_digest(&co.prefix_hasher(), &co.suffix_bytes(), &co.committer.name);
    assert_eq!(hex_string(&d), co.to_sha1());
}

#[test]
fn search_finds_a_name_whose_commit_id_matches() {
    let co = CommitObject::parse_cat_file(ROOT_TEXT);
    let patterns = vec!["0".to_string(), "1".to_string()];
    let found = AtomicBool::new(false);
    match search_block(&co, 3, 12, &patterns, &found) {
        BlockOutcome::Found(name) => {
            assert_eq!(name.len(), 40);
            assert!(name.chars().all(|c| c.is_ascii_digit() || ('a'..='f').contains(&c)));
            let id = co.with_committer_name(name).to_sha1();
            assert!(id.starts_with('0') || id.starts_with('1'));
        }
        _ => panic!("a one-digit pattern should be found within 4096 hashes"),
    }
}

#[test]
fn search_stops_when_asked() {
    let co = CommitObject::parse_cat_file(ROOT_TEXT);
    let patterns = vec!["0".repeat(40)];
    let found = AtomicBool::new(true);
    assert!(matches!(search_block(&co, 0, 10, &patterns, &found), BlockOutcome::Stopped));
}

#[test]
fn search_reports_an_exhausted_block() {
    let co = CommitObject::parse_cat_file(ROOT_TEXT);
    let patterns = vec!["0".repeat(40)];
    let found = AtomicBool::new(false);
    assert!(matches!(search_block(&co, 0, 2, &patterns, &found), BlockOutcome::Exhausted));
}

#[test]
fn search_starts_from_the_seeded_commit_id() {
    let co = CommitObject::parse_cat_file(ROOT_TEXT);
    let mut seeded_name = co.committer.name.clone();
    seeded_name.push_str("7");
    let start = co.with_committer_name(seeded_name).to_sha1();
    let next = co.with_committer_name(start.clone()).to_sha1();
    let patterns = vec![next[..6].to_string()];
    let found = AtomicBool::new(false);
    match search_block(&co, 7, 0, &patterns, &found) {
        BlockOutcome::Found(name) => assert_eq!(name, start),
        _ => panic!("the first name of the chain matches by construction"),
    }
}

#[test]
fn commit_tree_arguments() {
    let root = CommitObject::parse_cat_file(ROOT_TEXT);
    assert_eq!(
        commit_tree_args("/repo", &root),
        vec!["-C", "/repo", "commit-tree", "4b825dc642cb6eb9a060e54bf8d69288fbee4904", "-F", "-"]
    );
    let child = CommitObject::parse_cat_file(CHILD_TEXT);
    assert_eq!(
        commit_tree_args("/repo", &child),
        vec![
            "-C",
            "/repo",
            "commit-tree",
            "4b825dc642cb6eb9a060e54bf8d69288fbee4904",
            "-p",
            "0123456789abcdef0123456789abcdef01234567",
            "-F",
            "-"
        ]
    );
}

#[test]
fn commit_tree_environment() {
    let child = CommitObject::parse_cat_file(CHILD_TEXT);
    let env = commit_tree_env(&child, "feedface");
    let expected: Vec<(String, String)> = vec![
        ("GIT_AUTHOR_NAME", "Zoë Ünïcode"),
        ("GIT_AUTHOR_EMAIL", "zoe@example.com"),
        ("GIT_AUTHOR_DATE", "1600000000 +0900"),
        ("GIT_COMMITTER_NAME", "feedface"),
        ("GIT_COMMITTER_EMAIL", "bob@example.org"),
        ("GIT_COMMITTER_DATE", "1600000100 +0900"),
    ]
    .into_iter()
    .map(|(a, b)| (a.to_string(), b.to_string()))
    .collect();
    assert_eq!(env, expected);
}

#[test]
fn search_step_stops_hits_or_moves_on() {
    let co = CommitObject::parse_cat_file(ROOT_TEXT);
    let framed = co.with_committer_name("a".repeat(40));
    let prefix = framed.prefix_hasher();
    let suffix = framed.suffix_bytes();
    let name = "0123456789abcdef0123456789abcdef01234567".to_string();
    let id = co.with_committer_name(name.clone()).to_sha1();
    let hit: Vec<Vec<char>> = vec![id[..3].chars().collect()];
    let miss: Vec<Vec<char>> = vec![if id.starts_with('0') { "1" } else { "0" }.chars().collect()];
    assert!(matches!(search_step(&prefix, &suffix, &name, &hit, true), StepOutcome::Stop));
    assert!(matches!(search_step(&prefix, &suffix, &name, &hit, false), StepOutcome::Hit));
    match search_step(&prefix, &suffix, &name, &miss, false) {
        StepOutcome::Next(h) => assert_eq!(h, id),
        _ => panic!("a pattern that differs in the first digit cannot match"),
    }
}
