use crate::git::{lemma_gitter_utf8_len, Gitter, GitterView};
use crate::hash::{hasher_finalize, hasher_input, hasher_new, hasher_update, sha1_digest, Sha1Hasher};
use crate::text::{
    all_ascii, all_hex, decimal, hex_lower, hex_string, lemma_ascii_utf8_len,
    lemma_encode_utf8_concat, lemma_hex_lower_shape, lemma_utf8_len_concat, push_decimal, utf8_len,
};
use vstd::slice::slice_to_vec;
use vstd::utf8::encode_utf8;
use vstd::prelude::*;
use vstd::string::*;

verus! {

/// A git commit object: tree, optional parent, author, committer and message.
#[derive(Clone)]
pub struct CommitObject {
    pub tree: String,
    pub parent: Option<String>,
    pub author: Gitter,
    pub committer: Gitter,
    pub message: String,
}

/// What a `CommitObject` holds, as character sequences.
#[verifier::ext_equal]
pub struct CommitView {
    pub tree: Seq<char>,
    pub parent: Option<Seq<char>>,
    pub author: GitterView,
    pub committer: GitterView,
    pub message: Seq<char>,
}

impl View for CommitObject {
    type V = CommitView;

    open spec fn view(&self) -> CommitView {
        CommitView {
            tree: self.tree@,
            parent: match self.parent {
                Some(p) => Some(p@),
                None => None,
            },
            author: self.author@,
            committer: self.committer@,
            message: self.message@,
        }
    }
}

/// `tree `
pub open spec fn tree_head() -> Seq<char> {
    seq!['t', 'r', 'e', 'e', ' ']
}

/// `parent `
pub open spec fn parent_head() -> Seq<char> {
    seq!['p', 'a', 'r', 'e', 'n', 't', ' ']
}

/// `author `
pub open spec fn author_head() -> Seq<char> {
    seq!['a', 'u', 't', 'h', 'o', 'r', ' ']
}

/// `committer `
pub open spec fn committer_head() -> Seq<char> {
    seq!['c', 'o', 'm', 'm', 'i', 't', 't', 'e', 'r', ' ']
}

/// A line break: `\r\n` when `cr`, else `\n`.
pub open spec fn eol(cr: bool) -> Seq<char> {
    if cr {
        seq!['\r', '\n']
    } else {
        seq!['\n']
    }
}

/// A header line: `head`, `body`, then a line break.
pub open spec fn line(head: Seq<char>, body: Seq<char>, cr: bool) -> Seq<char> {
    head + body + eol(cr)
}

/// A hexadecimal object name: forty lower-case hexadecimal digits.
pub open spec fn is_object_name(s: Seq<char>) -> bool {
    s.len() == 40 && all_hex(s)
}

impl CommitView {
    /// The parent line, or nothing for a root commit.
    pub open spec fn parent_line(self, cr: bool) -> Seq<char> {
        match self.parent {
            Some(p) => line(parent_head(), p, cr),
            None => Seq::empty(),
        }
    }

    /// The commit object text with the line breaks chosen by `crs`
    /// (one flag each for the tree, parent, author, committer and blank lines).
    #[verifier::opaque]
    pub open spec fn layout(self, crs: Seq<bool>) -> Seq<char> {
        line(tree_head(), self.tree, crs[0]) + self.parent_line(crs[1]) + line(
            author_head(),
            self.author.text(),
            crs[2],
        ) + line(committer_head(), self.committer.text(), crs[3]) + eol(crs[4]) + self.message
    }

    /// The commit object text, in the form `git cat-file -p` prints it:
    /// `tree T\n[parent P\n]author A\ncommitter C\n\nMESSAGE`.
    pub open spec fn text(self) -> Seq<char> {
        line(tree_head(), self.tree, false) + self.parent_line(false) + line(
            author_head(),
            self.author.text(),
            false,
        ) + line(committer_head(), self.committer.text(), false) + eol(false) + self.message
    }

    /// The fields can be read back from the text: object names of forty
    /// hexadecimal digits, well-formed people whose text holds no line break,
    /// and a non-empty message.
    pub open spec fn wf(self) -> bool {
        &&& is_object_name(self.tree)
        &&& (self.parent matches Some(p) ==> is_object_name(p))
        &&& self.author.wf()
        &&& !self.author.text().contains('\n')
        &&& self.committer.wf()
        &&& !self.committer.text().contains('\n')
        &&& self.message.len() > 0
    }

    /// `crs` picks a line break for each of the five lines, and a person line
    /// ending in `\r` is followed by `\r\n`, so that the text reads back
    /// only one way.
    pub open spec fn canonical(self, crs: Seq<bool>) -> bool {
        &&& crs.len() == 5
        &&& (!crs[2] ==> self.author.text().last() != '\r')
        &&& (!crs[3] ==> self.committer.text().last() != '\r')
    }
}

/// Line breaks without carriage returns.
pub open spec fn plain_breaks() -> Seq<bool> {
    seq![false, false, false, false, false]
}

/// The text is the layout with plain line breaks.
pub proof fn lemma_text_is_plain_layout(co: CommitView)
    ensures
        co.text() == co.layout(plain_breaks()),
{
    reveal(CommitView::layout);
}

/// A well-formed commit whose people's text does not end in `\r` is read
/// back from its own text: the text is its layout with plain line breaks,
/// and those breaks are canonical.
pub proof fn lemma_text_reads_back(co: CommitView)
    requires
        co.wf(),
        co.author.text().last() != '\r',
        co.committer.text().last() != '\r',
    ensures
        co.canonical(plain_breaks()),
        co.text() == co.layout(plain_breaks()),
{
    lemma_text_is_plain_layout(co);
}

/// UTF-8 length of a header line.
pub proof fn lemma_line_utf8_len(head: Seq<char>, body: Seq<char>, cr: bool)
    requires
        all_ascii(head),
    ensures
        utf8_len(line(head, body, cr)) == head.len() + utf8_len(body) + eol(cr).len(),
{
    lemma_ascii_utf8_len(head);
    lemma_ascii_utf8_len(eol(cr));
    lemma_utf8_len_concat(head, body);
    lemma_utf8_len_concat(head + body, eol(cr));
}

/// UTF-8 length of a commit object's text, part by part.
pub proof fn lemma_text_utf8_len(co: CommitView)
    ensures
        utf8_len(co.text()) == 5 + utf8_len(co.tree) + 1 + 7 + utf8_len(co.author.text()) + 1 + 10
            + utf8_len(co.committer.text()) + 1 + 1 + utf8_len(co.message) + match co.parent {
            Some(p) => 7 + utf8_len(p) + 1,
            None => 0,
        },
{
    let l0 = line(tree_head(), co.tree, false);
    let l1 = co.parent_line(false);
    let l2 = line(author_head(), co.author.text(), false);
    let l3 = line(committer_head(), co.committer.text(), false);
    let l4 = eol(false);
    lemma_line_utf8_len(tree_head(), co.tree, false);
    match co.parent {
        Some(p) => lemma_line_utf8_len(parent_head(), p, false),
        None => {},
    }
    lemma_line_utf8_len(author_head(), co.author.text(), false);
    lemma_line_utf8_len(committer_head(), co.committer.text(), false);
    lemma_ascii_utf8_len(l4);
    lemma_utf8_len_concat(l0, l1);
    lemma_utf8_len_concat(l0 + l1, l2);
    lemma_utf8_len_concat(l0 + l1 + l2, l3);
    lemma_utf8_len_concat(l0 + l1 + l2 + l3, l4);
    lemma_utf8_len_concat(l0 + l1 + l2 + l3 + l4, co.message);
    assert(utf8_len(Seq::<char>::empty()) == 0);
}

/// `commit `
pub open spec fn commit_word() -> Seq<char> {
    seq!['c', 'o', 'm', 'm', 'i', 't', ' ']
}

/// What git hashes for a commit: `commit <size>\0` and the text, where the
/// size is the text's length in UTF-8 bytes.
pub open spec fn object_text(co: CommitView) -> Seq<char> {
    commit_word() + decimal(utf8_len(co.text())) + seq!['\0'] + co.text()
}

/// The commit's id: the lower-case hexadecimal SHA-1 of its object bytes.
pub open spec fn commit_id(co: CommitView) -> Seq<char> {
    hex_lower(sha1_digest(encode_utf8(object_text(co))))
}

/// What comes before the committer's name in the object text.
pub open spec fn prefix_text(co: CommitView) -> Seq<char> {
    commit_word() + decimal(utf8_len(co.text())) + seq!['\0'] + line(tree_head(), co.tree, false)
        + co.parent_line(false) + line(author_head(), co.author.text(), false) + committer_head()
}

/// What comes after the committer's name in the object text.
pub open spec fn suffix_text(co: CommitView) -> Seq<char> {
    seq![' ', '<'] + co.committer.email_user + seq!['@'] + co.committer.email_domain + seq![
        '>',
        ' ',
    ] + co.committer.time + seq!['\n', '\n'] + co.message
}

impl CommitView {
    /// The same commit with another committer name.
    pub open spec fn with_committer_name(self, name: Seq<char>) -> CommitView {
        CommitView { committer: GitterView { name, ..self.committer }, ..self }
    }
}

/// The object text is the prefix, the committer's name and the suffix.
pub proof fn lemma_object_text_split(co: CommitView)
    ensures
        object_text(co) == prefix_text(co) + co.committer.name + suffix_text(co),
{
    assert(object_text(co) =~= prefix_text(co) + co.committer.name + suffix_text(co));
}

/// Renaming the committer to a name of the same UTF-8 length changes neither
/// the prefix nor the suffix.
pub proof fn lemma_rename_keeps_frame(co: CommitView, name: Seq<char>)
    requires
        utf8_len(name) == utf8_len(co.committer.name),
    ensures
        prefix_text(co.with_committer_name(name)) == prefix_text(co),
        suffix_text(co.with_committer_name(name)) == suffix_text(co),
        utf8_len(co.with_committer_name(name).text()) == utf8_len(co.text()),
{
    let c2 = co.with_committer_name(name);
    lemma_text_utf8_len(co);
    lemma_text_utf8_len(c2);
    lemma_gitter_utf8_len(co.committer);
    lemma_gitter_utf8_len(c2.committer);
    assert(c2.parent_line(false) == co.parent_line(false));
    assert(prefix_text(c2) =~= prefix_text(co));
    assert(suffix_text(c2) =~= suffix_text(co));
}

/// Renaming the committer changes the text's UTF-8 length by the change in
/// the name's length.
pub proof fn lemma_rename_utf8_len(co: CommitView, name: Seq<char>)
    ensures
        utf8_len(co.with_committer_name(name).text()) + utf8_len(co.committer.name) == utf8_len(
            co.text(),
        ) + utf8_len(name),
{
    let c2 = co.with_committer_name(name);
    lemma_text_utf8_len(co);
    lemma_text_utf8_len(c2);
    lemma_gitter_utf8_len(co.committer);
    lemma_gitter_utf8_len(c2.committer);
}

/// Hashing the prefix, a committer name and the suffix in turn hashes the
/// object of the commit with that committer name, provided the name has the
/// UTF-8 length of the one the prefix was made with.
pub proof fn lemma_midstate(co: CommitView, name: Seq<char>)
    requires
        utf8_len(name) == utf8_len(co.committer.name),
    ensures
        encode_utf8(prefix_text(co)) + encode_utf8(name) + encode_utf8(suffix_text(co))
            == encode_utf8(object_text(co.with_committer_name(name))),
{
    let c2 = co.with_committer_name(name);
    lemma_rename_keeps_frame(co, name);
    lemma_object_text_split(c2);
    lemma_encode_utf8_concat(prefix_text(co), name);
    lemma_encode_utf8_concat(prefix_text(co) + name, suffix_text(co));
}

/// The id of a commit renamed to a name of the same UTF-8 length is the
/// hexadecimal SHA-1 of the original commit's prefix, the new name and the
/// original commit's suffix: one prefix serves every such name. With the
/// committer's own name this is the commit's own id.
pub proof fn lemma_midstate_id(co: CommitView, name: Seq<char>)
    requires
        utf8_len(name) == utf8_len(co.committer.name),
    ensures
        hex_lower(sha1_digest(encode_utf8(prefix_text(co)) + encode_utf8(name) + encode_utf8(suffix_text(co))))
            == commit_id(co.with_committer_name(name)),
        hex_lower(
            sha1_digest(
                encode_utf8(prefix_text(co)) + encode_utf8(co.committer.name) + encode_utf8(
                    suffix_text(co),
                ),
            ),
        ) == commit_id(co),
{
    lemma_midstate(co, name);
    lemma_midstate(co, co.committer.name);
    assert(co.with_committer_name(co.committer.name) =~= co);
}

/// Adding a parent to a commit without one lengthens its text by the
/// parent line: `parent `, the parent's UTF-8 length and a line break.
pub proof fn lemma_add_parent_utf8_len(co: CommitView, p: Seq<char>)
    requires
        co.parent is None,
    ensures
        utf8_len(CommitView { parent: Some(p), ..co }.text()) == utf8_len(co.text()) + 8 + utf8_len(p),
{
    lemma_text_utf8_len(co);
    lemma_text_utf8_len(CommitView { parent: Some(p), ..co });
}

/// Appending `x` to the message lengthens the text by the UTF-8 length of `x`.
pub proof fn lemma_append_message_utf8_len(co: CommitView, x: Seq<char>)
    ensures
        utf8_len(CommitView { message: co.message + x, ..co }.text()) == utf8_len(co.text()) + utf8_len(x),
{
    lemma_text_utf8_len(co);
    lemma_text_utf8_len(CommitView { message: co.message + x, ..co });
    lemma_utf8_len_concat(co.message, x);
}

impl CommitObject {
    /// The commit id: the SHA-1 of `commit <size>\0` followed by the text,
    /// in lower-case hexadecimal.
    pub fn to_sha1(&self) -> (r: String)
        requires
            utf8_len(self@.text()) <= usize::MAX,
        ensures
            r@ == commit_id(self@),
            r@.len() == 40,
            all_hex(r@),
    {
        let size = self.bytes();
        let mut s = String::new();
        s.append("commit ");
        push_decimal(&mut s, size);
        s.append("\0");
        self.write_text(&mut s);
        proof {
            reveal_strlit("commit ");
            reveal_strlit("\0");
        }
        assert(s@ =~= object_text(self@));
        let mut h = hasher_new();
        hasher_update(&mut h, s.as_str().as_bytes());
        let d = hasher_finalize(h);
        assert(hasher_input(h) =~= encode_utf8(object_text(self@)));
        proof {
            lemma_hex_lower_shape(d@);
        }
        hex_string(d.as_slice())
    }

    /// A hasher fed with everything of the object text before the
    /// committer's name. Hashing a name of the same length and then
    /// `suffix_bytes` hashes the commit with that committer name (`lemma_midstate`).
    pub fn prefix_hasher(&self) -> (h: Sha1Hasher)
        requires
            utf8_len(self@.text()) <= usize::MAX,
        ensures
            hasher_input(h) == encode_utf8(prefix_text(self@)),
    {
        let size = self.bytes();
        let mut s = String::new();
        s.append("commit ");
        push_decimal(&mut s, size);
        s.append("\0");
        s.append("tree ");
        s.append(self.tree.as_str());
        s.append("\n");
        match &self.parent {
            Some(p) => {
                s.append("parent ");
                s.append(p.as_str());
                s.append("\n");
            },
            None => {},
        }
        s.append("author ");
        let a = self.author.serialize();
        s.append(a.as_str());
        s.append("\n");
        s.append("committer ");
        proof {
            reveal_strlit("commit ");
            reveal_strlit("\0");
            reveal_strlit("tree ");
            reveal_strlit("\n");
            reveal_strlit("parent ");
            reveal_strlit("author ");
            reveal_strlit("committer ");
        }
        assert(s@ =~= prefix_text(self@));
        let mut h = hasher_new();
        hasher_update(&mut h, s.as_str().as_bytes());
        assert(hasher_input(h) =~= encode_utf8(prefix_text(self@)));
        h
    }

    /// The bytes of the object text after the committer's name:
    /// ` <user@domain> time\n\n` and the message.
    pub fn suffix_bytes(&self) -> (r: Vec<u8>)
        ensures
            r@ == encode_utf8(suffix_text(self@)),
    {
        let mut s = String::new();
        s.append(" <");
        s.append(self.committer.email_user.as_str());
        s.append("@");
        s.append(self.committer.email_domain.as_str());
        s.append("> ");
        s.append(self.committer.time.as_str());
        s.append("\n\n");
        s.append(self.message.as_str());
        proof {
            reveal_strlit(" <");
            reveal_strlit("@");
            reveal_strlit("> ");
            reveal_strlit("\n\n");
        }
        assert(s@ =~= suffix_text(self@));
        slice_to_vec(s.as_str().as_bytes())
    }

    /// The same commit with `name` as the committer's name.
    pub fn with_committer_name(&self, name: String) -> (r: CommitObject)
        ensures
            r@ == self@.with_committer_name(name@),
    {
        let parent = match &self.parent {
            Some(p) => Some(p.clone()),
            None => None,
        };
        let r = CommitObject {
            tree: self.tree.clone(),
            parent,
            author: Gitter {
                name: self.author.name.clone(),
                email_user: self.author.email_user.clone(),
                email_domain: self.author.email_domain.clone(),
                time: self.author.time.clone(),
            },
            committer: Gitter {
                name,
                email_user: self.committer.email_user.clone(),
                email_domain: self.committer.email_domain.clone(),
                time: self.committer.time.clone(),
            },
            message: self.message.clone(),
        };
        assert(r@ =~= self@.with_committer_name(name@));
        r
    }

    /// The size of the commit object in bytes: the UTF-8 length of its text
    /// (not the size of this structure).
    pub fn bytes(&self) -> (r: usize)
        requires
            utf8_len(self@.text()) <= usize::MAX,
        ensures
            r == utf8_len(self@.text()),
    {
        proof {
            lemma_text_utf8_len(self@);
            lemma_gitter_utf8_len(self@.author);
            lemma_gitter_utf8_len(self@.committer);
        }
        let mut byte_count: usize = 5 + self.tree.as_str().len() + 1 + 7 + self.author.bytes() + 1
            + 10 + self.committer.bytes() + 1 + 1 + self.message.as_str().len();
        match &self.parent {
            Some(p) => {
                byte_count = byte_count + 7 + p.as_str().len() + 1;
            },
            None => {},
        }
        byte_count
    }

    /// Appends the commit object text to `out`.
    pub fn write_text(&self, out: &mut String)
        ensures
            final(out)@ == old(out)@ + self@.text(),
    {
        let ghost start = out@;
        out.append("tree ");
        out.append(self.tree.as_str());
        out.append("\n");
        match &self.parent {
            Some(p) => {
                out.append("parent ");
                out.append(p.as_str());
                out.append("\n");
            },
            None => {},
        }
        out.append("author ");
        let a = self.author.serialize();
        out.append(a.as_str());
        out.append("\n");
        out.append("committer ");
        let c = self.committer.serialize();
        out.append(c.as_str());
        out.append("\n\n");
        out.append(self.message.as_str());
        proof {
            reveal_strlit("tree ");
            reveal_strlit("\n");
            reveal_strlit("parent ");
            reveal_strlit("author ");
            reveal_strlit("committer ");
            reveal_strlit("\n\n");
        }
        assert(out@ =~= start + self@.text());
    }

    /// The commit object text: the tree line, the parent line if any, the
    /// author and committer lines, an empty line and the message.
    pub fn serialize(&self) -> (r: String)
        ensures
            r@ == self@.text(),
    {
        let mut s = String::new();
        self.write_text(&mut s);
        assert(s@ =~= self@.text());
        s
    }
}

} // verus!
