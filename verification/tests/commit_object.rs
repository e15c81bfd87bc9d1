use commit_artist::git::commit_object::CommitObject;
use commit_artist::git::Gitter;

const ROOT_TEXT: &str = "tree 4b825dc642cb6eb9a060e54bf8d69288fbee4904\nauthor Alice Example <alice@example.com> 1600000000 +0900\ncommitter Bob Builder <bob@example.org> 1600000100 +0900\n\nInitial commit\n";

const CHILD_TEXT: &str = "tree 4b825dc642cb6eb9a060e54bf8d69288fbee4904\nparent 0123456789abcdef0123456789abcdef01234567\nauthor Zoë Ünïcode <zoe@example.com> 1600000000 +0900\ncommitter Bob Builder <bob@example.org> 1600000100 +0900\n\nSecond\n\nbody ✓\n";

#[test]
fn gitter_parse_reads_the_parts() {
    let g = Gitter::parse("Alice Example <alice@example.com> 1600000000 +0900").unwrap();
    assert_eq!(g.name, "Alice Example");
    assert_eq!(g.email_user, "alice");
    assert_eq!(g.email_domain, "example.com");
    assert_eq!(g.time, "1600000000 +0900");
    assert_eq!(g.email(), "alice@example.com");
    assert_eq!(g.serialize(), "Alice Example <alice@example.com> 1600000000 +0900");
    assert_eq!(g.bytes(), 50);
}

#[test]
fn gitter_parse_splits_at_the_last_at_sign() {
    let g = Gitter::parse("N <a@b@c> t").unwrap();
    assert_eq!(g.email_user, "a@b");
    assert_eq!(g.email_domain, "c");
}

#[test]
fn gitter_parse_refuses_malformed_text() {
    assert!(Gitter::parse("no address here").is_none());
    assert!(Gitter::parse("<a@b> t").is_none());
    assert!(Gitter::parse("N <ab> t").is_none());
    assert!(Gitter::parse("N <a@b>").is_none());
    assert!(Gitter::parse("N <a@b>x").is_none());
    assert!(Gitter::parse("N <@b> t").is_none());
    assert!(Gitter::parse("N <a@> t").is_none());
}

#[test]
fn parse_root_commit() {
    let co = CommitObject::try_parse_cat_file(ROOT_TEXT).unwrap();
    assert_eq!(co.tree, "4b825dc642cb6eb9a060e54bf8d69288fbee4904");
    assert!(co.parent.is_none());
    assert_eq!(co.author.name, "Alice Example");
    assert_eq!(co.committer.name, "Bob Builder");
    assert_eq!(co.committer.email_domain, "example.org");
    assert_eq!(co.message, "Initial commit\n");
}

#[test]
fn parse_commit_with_parent() {
    let co = CommitObject::parse_cat_file(CHILD_TEXT);
    assert_eq!(co.parent.as_deref(), Some("0123456789abcdef0123456789abcdef01234567"));
    assert_eq!(co.author.name, "Zoë Ünïcode");
    assert_eq!(co.message, "Second\n\nbody ✓\n");
}

#[test]
fn serialize_gives_the_text_back() {
    assert_eq!(CommitObject::parse_cat_file(ROOT_TEXT).serialize(), ROOT_TEXT);
    assert_eq!(CommitObject::parse_cat_file(CHILD_TEXT).serialize(), CHILD_TEXT);
}

#[test]
fn crlf_line_breaks_are_read_as_plain_ones() {
    let crlf = ROOT_TEXT.replace('\n', "\r\n");
    let co = CommitObject::try_parse_cat_file(&crlf).unwrap();
    assert_eq!(co.committer.time, "1600000100 +0900");
    assert_eq!(co.message, "Initial commit\r\n");
    let expected = "tree 4b825dc642cb6eb9a060e54bf8d69288fbee4904\nauthor Alice Example <alice@example.com> 1600000000 +0900\ncommitter Bob Builder <bob@example.org> 1600000100 +0900\n\nInitial commit\r\n";
    assert_eq!(co.serialize(), expected);
}

#[test]
fn malformed_objects_are_refused() {
    assert!(CommitObject::try_parse_cat_file("").is_none());
    assert!(CommitObject::try_parse_cat_file(&ROOT_TEXT.replace("tree 4b8", "tree 4B8")).is_none());
    assert!(CommitObject::try_parse_cat_file(&ROOT_TEXT.replace("\n\nInitial commit\n", "\n\n")).is_none());
    assert!(CommitObject::try_parse_cat_file(&ROOT_TEXT.replace("author ", "writer ")).is_none());
    assert!(CommitObject::try_parse_cat_file(&ROOT_TEXT.replace("\n\nInitial", "\nInitial")).is_none());
    assert!(CommitObject::try_parse_cat_file(&ROOT_TEXT.replace("<alice@example.com>", "alice")).is_none());
}

#[test]
fn bytes_is_the_utf8_length_of_the_text() {
    assert_eq!(CommitObject::parse_cat_file(ROOT_TEXT).bytes(), 177);
    assert_eq!(CommitObject::parse_cat_file(CHILD_TEXT).bytes(), 226);
    assert_eq!(CommitObject::parse_cat_file(CHILD_TEXT).bytes(), CHILD_TEXT.len());
}

#[test]
fn to_sha1_is_the_git_commit_id() {
    assert_eq!(
        CommitObject::parse_cat_file(ROOT_TEXT).to_sha1(),
        "94c55b9a9a85c8c40a5ac84e21f2246e6ce0f1d2"
    );
    assert_eq!(
        CommitObject::parse_cat_file(CHILD_TEXT).to_sha1(),
        "99c91db4e15698429c22a0426d2b140edf9621b4"
    );
}

#[test]
fn suffix_bytes_is_what_follows_the_committer_name() {
    let co = CommitObject::parse_cat_file(ROOT_TEXT);
    assert_eq!(
        co.suffix_bytes(),
        " <bob@example.org> 1600000100 +0900\n\nInitial commit\n".as_bytes().to_vec()
    );
}

#[test]
fn with_committer_name_renames_only_the_committer() {
    let co = CommitObject::parse_cat_file(CHILD_TEXT);
    let renamed = co.with_committer_name("X".to_string());
    assert_eq!(renamed.committer.name, "X");
    assert_eq!(renamed.author.name, co.author.name);
    assert_eq!(renamed.committer.time, co.committer.time);
    assert_eq!(renamed.parent, co.parent);
}

#[test]
fn adding_a_parent_adds_its_line_to_bytes() {
    let co = CommitObject::parse_cat_file(ROOT_TEXT);
    let mut with_parent = co.clone();
    let p = "0123456789abcdef0123456789abcdef01234567".to_string();
    with_parent.parent = Some(p.clone());
    assert_eq!(with_parent.bytes(), co.bytes() + 8 + p.len());
}

#[test]
fn appending_to_the_message_adds_its_length_to_bytes() {
    let co = CommitObject::parse_cat_file(CHILD_TEXT);
    let mut longer = co.clone();
    longer.message.push_str("more ✓");
    assert_eq!(longer.bytes(), co.bytes() + "more ✓".len());
}

#[test]
fn same_length_rename_keeps_bytes() {
    let co = CommitObject::parse_cat_file(CHILD_TEXT);
    let a = co.with_committer_name("a".repeat(40));
    let b = co.with_committer_name("0123456789abcdef0123456789abcdef01234567".to_string());
    assert_eq!(a.bytes(), b.bytes());
}
