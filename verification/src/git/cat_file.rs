use crate::git::commit_object::{
    author_head, committer_head, eol, is_object_name, line, parent_head, tree_head, CommitObject,
    CommitView,
};
use crate::git::Gitter;
use crate::text::{all_hex, all_hex_in, chars_of, has_at, is_hex_char, substring};
use vstd::pervasive::unreached;
use vstd::prelude::*;

verus! {

/// A line that starts at `from` has its content end at `k`: no line feed
/// stands in `v[from..k]`, the line break `eol(cr)` follows at `k`, and a
/// plain `\n` is not preceded by a `\r` of the line.
#[verifier::opaque]
pub open spec fn line_ends_at(v: Seq<char>, from: int, k: int, cr: bool) -> bool {
    &&& 0 <= from <= k
    &&& k + eol(cr).len() <= v.len()
    &&& v.subrange(k, k + eol(cr).len()) == eol(cr)
    &&& forall|j: int| from <= j < k ==> v[j] != '\n'
    &&& (!cr ==> (k == from || v[k - 1] != '\r'))
}

/// Finds the line that starts at `from`: returns the end of its content (a
/// `\r` just before the `\n` left out) and where the next line starts.
fn next_line(v: &Vec<char>, from: usize) -> (r: Option<(usize, usize)>)
    requires
        from <= v@.len(),
    ensures
        r matches Some((k, e)) ==> (e == k + 1 || e == k + 2) && from <= k && e <= v@.len()
            && line_ends_at(v@, from as int, k as int, e == k + 2),
        forall|k: int, cr: bool|
            line_ends_at(v@, from as int, k, cr) ==> (r matches Some((a, b)) && a == k && b == k
                + eol(cr).len()),
{
    reveal(line_ends_at);
    let n = v.len();
    match crate::text::find_char(v, '\n', from, n) {
        Some(e) => {
            let r = if e > from && v[e - 1] == '\r' {
                (e - 1, e + 1)
            } else {
                (e, e + 1)
            };
            proof {
                assert(v@.subrange(r.0 as int, r.1 as int) =~= eol(r.1 == r.0 + 2));
                assert forall|k: int, cr: bool| line_ends_at(v@, from as int, k, cr) implies r.0 == k
                    && r.1 == k + eol(cr).len() by {
                    let ek = k + eol(cr).len() - 1;
                    assert(v@.subrange(k, k + eol(cr).len())[eol(cr).len() - 1] == '\n');
                    assert(v@[ek] == '\n');
                    if cr {
                        assert(v@.subrange(k, k + 2)[0] == '\r');
                    }
                    assert(e == ek);
                }
            }
            Some(r)
        },
        None => {
            proof {
                assert forall|k: int, cr: bool| !line_ends_at(v@, from as int, k, cr) by {
                    if line_ends_at(v@, from as int, k, cr) {
                        let ek = k + eol(cr).len() - 1;
                        assert(v@.subrange(k, k + eol(cr).len())[eol(cr).len() - 1] == '\n');
                    }
                }
            }
            None
        },
    }
}

/// A line `head + body + eol(cr)` at `from` in `t`: where its parts stand,
/// and that it ends where `line_ends_at` says.
proof fn lemma_line_at(
    t: Seq<char>,
    from: int,
    head: Seq<char>,
    body: Seq<char>,
    cr: bool,
    rest: Seq<char>,
)
    requires
        0 <= from <= t.len(),
        t.subrange(from, t.len() as int) == line(head, body, cr) + rest,
        !(head + body).contains('\n'),
        !cr ==> (head + body).len() == 0 || (head + body).last() != '\r',
    ensures
        line_ends_at(t, from, from + head.len() + body.len(), cr),
        t.subrange(from, from + head.len()) == head,
        t.subrange(from + head.len(), from + head.len() + body.len()) == body,
        t.subrange(from + line(head, body, cr).len(), t.len() as int) == rest,
{
    reveal(line_ends_at);
    let hb = head + body;
    let l = line(head, body, cr);
    let k = from + hb.len();
    let u = t.subrange(from, t.len() as int);
    assert(u.len() == l.len() + rest.len());
    assert(l == hb + eol(cr));
    assert forall|i: int| 0 <= i < l.len() implies #[trigger] t[from + i] == l[i] by {
        assert(u[i] == t[from + i]);
        assert((l + rest)[i] == l[i]);
    }
    assert forall|i: int| 0 <= i < rest.len() implies #[trigger] t[from + l.len() + i] == rest[i] by {
        assert(u[l.len() + i] == t[from + l.len() + i]);
        assert((l + rest)[l.len() + i] == rest[i]);
    }
    assert forall|j: int| from <= j < k implies t[j] != '\n' by {
        assert(t[from + (j - from)] == l[j - from]);
        assert(l[j - from] == hb[j - from]);
    }
    assert(t.subrange(k, k + eol(cr).len()) =~= eol(cr)) by {
        assert forall|j: int| 0 <= j < eol(cr).len() implies t.subrange(k, k + eol(cr).len())[j]
            == eol(cr)[j] by {
            assert(t[from + (hb.len() + j)] == l[hb.len() + j]);
        }
    }
    if !cr && k != from {
        assert(t[from + (hb.len() - 1)] == l[hb.len() - 1]);
    }
    assert(t.subrange(from, from + head.len()) =~= head) by {
        assert forall|j: int| 0 <= j < head.len() implies t.subrange(from, from + head.len())[j]
            == head[j] by {
            assert(t[from + j] == l[j]);
        }
    }
    assert(t.subrange(from + head.len(), k) =~= body) by {
        assert forall|j: int| 0 <= j < body.len() implies t.subrange(from + head.len(), k)[j]
            == body[j] by {
            assert(t[from + (head.len() + j)] == l[head.len() + j]);
        }
    }
    assert(t.subrange(from + l.len(), t.len() as int) =~= rest) by {
        assert forall|j: int| 0 <= j < rest.len() implies t.subrange(from + l.len(), t.len() as int)[j]
            == rest[j] by {
            assert(t[from + l.len() + j] == rest[j]);
        }
    }
}

/// Where the parent line (or, without a parent, the author line) begins.
spec fn second_start(crs: Seq<bool>) -> int {
    45 + eol(crs[0]).len() as int
}

/// Where the author line begins.
spec fn author_start(co: CommitView, crs: Seq<bool>) -> int {
    second_start(crs) + co.parent_line(crs[1]).len()
}

/// Where the author's text ends.
spec fn author_end(co: CommitView, crs: Seq<bool>) -> int {
    author_start(co, crs) + 7 + co.author.text().len()
}

/// Where the committer line begins.
spec fn committer_start(co: CommitView, crs: Seq<bool>) -> int {
    author_end(co, crs) + eol(crs[2]).len()
}

/// Where the committer's text ends.
spec fn committer_end(co: CommitView, crs: Seq<bool>) -> int {
    committer_start(co, crs) + 10 + co.committer.text().len()
}

/// Where the blank line begins.
spec fn blank_start(co: CommitView, crs: Seq<bool>) -> int {
    committer_end(co, crs) + eol(crs[3]).len()
}

/// Where the message begins.
spec fn message_start(co: CommitView, crs: Seq<bool>) -> int {
    blank_start(co, crs) + eol(crs[4]).len()
}

/// A sequence of forty hexadecimal digits holds no line break characters.
proof fn lemma_head_name_plain(head: Seq<char>, name: Seq<char>)
    requires
        is_object_name(name),
        !head.contains('\n'),
    ensures
        !(head + name).contains('\n'),
        (head + name).last() != '\r',
{
    assert((head + name).last() == name[39]);
    assert(is_hex_char(name[39]));
    assert forall|i: int| 0 <= i < (head + name).len() implies (head + name)[i] != '\n' by {
        if i >= head.len() {
            assert(is_hex_char(name[i - head.len()]));
        }
    }
}

/// A person's line: the head and the text hold no line feed, and the line
/// does not end in `\r` unless the break is `\r\n`.
proof fn lemma_head_person_plain(head: Seq<char>, text: Seq<char>, cr: bool)
    requires
        text.len() > 0,
        !text.contains('\n'),
        !head.contains('\n'),
        !cr ==> text.last() != '\r',
    ensures
        !(head + text).contains('\n'),
        !cr ==> (head + text).last() != '\r',
{
    assert((head + text).last() == text.last());
    assert forall|i: int| 0 <= i < (head + text).len() implies (head + text)[i] != '\n' by {
        if i >= head.len() {
            assert(text[i - head.len()] != '\n');
        }
    }
}

/// The heads hold no line feed.
proof fn lemma_heads_plain()
    ensures
        !tree_head().contains('\n'),
        !parent_head().contains('\n'),
        !author_head().contains('\n'),
        !committer_head().contains('\n'),
{
    assert forall|i: int| 0 <= i < 5 implies tree_head()[i] != '\n' by {}
    assert forall|i: int| 0 <= i < 7 implies parent_head()[i] != '\n' by {}
    assert forall|i: int| 0 <= i < 7 implies author_head()[i] != '\n' by {}
    assert forall|i: int| 0 <= i < 10 implies committer_head()[i] != '\n' by {}
}

/// The text after the tree line.
spec fn after_tree(co: CommitView, crs: Seq<bool>) -> Seq<char> {
    co.parent_line(crs[1]) + after_parent(co, crs)
}

/// The text from the author line on.
spec fn after_parent(co: CommitView, crs: Seq<bool>) -> Seq<char> {
    line(author_head(), co.author.text(), crs[2]) + after_author(co, crs)
}

/// The text from the committer line on.
spec fn after_author(co: CommitView, crs: Seq<bool>) -> Seq<char> {
    line(committer_head(), co.committer.text(), crs[3]) + after_committer(co, crs)
}

/// The blank line and the message.
spec fn after_committer(co: CommitView, crs: Seq<bool>) -> Seq<char> {
    eol(crs[4]) + co.message
}

/// The layout is the tree line followed by the rest.
proof fn lemma_layout_split(co: CommitView, crs: Seq<bool>)
    ensures
        co.layout(crs) == line(tree_head(), co.tree, crs[0]) + after_tree(co, crs),
{
    reveal(CommitView::layout);
    assert(co.layout(crs) =~= line(tree_head(), co.tree, crs[0]) + after_tree(co, crs));
}

/// The length of the layout, part by part.
proof fn lemma_layout_len(co: CommitView, crs: Seq<bool>)
    requires
        co.tree.len() == 40,
    ensures
        co.layout(crs).len() == second_start(crs) + after_tree(co, crs).len(),
        after_tree(co, crs).len() == co.parent_line(crs[1]).len() + after_parent(co, crs).len(),
        after_parent(co, crs).len() == 7 + co.author.text().len() + eol(crs[2]).len()
            + after_author(co, crs).len(),
        after_author(co, crs).len() == 10 + co.committer.text().len() + eol(crs[3]).len()
            + after_committer(co, crs).len(),
{
    lemma_layout_split(co, crs);
}

/// The tree line of a commit object text.
proof fn lemma_layout_tree(co: CommitView, crs: Seq<bool>)
    requires
        co.wf(),
        co.canonical(crs),
    ensures
        ({
            let t = co.layout(crs);
            &&& line_ends_at(t, 0, 45, crs[0])
            &&& t.subrange(0, 5) == tree_head()
            &&& t.subrange(5, 45) == co.tree
            &&& t.subrange(second_start(crs), t.len() as int) == after_tree(co, crs)
        }),
{
    let t = co.layout(crs);
    lemma_heads_plain();
    lemma_head_name_plain(tree_head(), co.tree);
    lemma_layout_split(co, crs);
    assert(t.subrange(0, t.len() as int) =~= t);
    lemma_line_at(t, 0, tree_head(), co.tree, crs[0], after_tree(co, crs));
}

/// The parent line of a commit object text, if any.
proof fn lemma_layout_parent(co: CommitView, crs: Seq<bool>)
    requires
        co.wf(),
        co.canonical(crs),
        co.layout(crs).subrange(second_start(crs), co.layout(crs).len() as int) == after_tree(
            co,
            crs,
        ),
    ensures
        ({
            let t = co.layout(crs);
            let ss = second_start(crs);
            &&& (co.parent matches Some(p) ==> {
                &&& line_ends_at(t, ss, ss + 47, crs[1])
                &&& t.subrange(ss, ss + 7) == parent_head()
                &&& t.subrange(ss + 7, ss + 47) == p
            })
            &&& (co.parent is None ==> t.subrange(ss, ss + 7) != parent_head())
            &&& t.subrange(author_start(co, crs), t.len() as int) == after_parent(co, crs)
        }),
{
    lemma_layout_len(co, crs);
    let t = co.layout(crs);
    let ss = second_start(crs);
    lemma_heads_plain();
    match co.parent {
        Some(pp) => {
            lemma_head_name_plain(parent_head(), pp);
            lemma_line_at(t, ss, parent_head(), pp, crs[1], after_parent(co, crs));
        },
        None => {
            assert(after_tree(co, crs) =~= after_parent(co, crs));
            assert(t.subrange(ss, t.len() as int)[0] == 'a');
            assert(t.subrange(ss, ss + 7)[0] == 'a');
        },
    }
}

/// The author and committer lines of a commit object text.
proof fn lemma_layout_people(co: CommitView, crs: Seq<bool>)
    requires
        co.wf(),
        co.canonical(crs),
        co.layout(crs).subrange(author_start(co, crs), co.layout(crs).len() as int)
            == after_parent(co, crs),
    ensures
        ({
            let t = co.layout(crs);
            &&& line_ends_at(t, author_start(co, crs), author_end(co, crs), crs[2])
            &&& t.subrange(author_start(co, crs), author_start(co, crs) + 7) == author_head()
            &&& t.subrange(author_start(co, crs) + 7, author_end(co, crs)) == co.author.text()
            &&& line_ends_at(t, committer_start(co, crs), committer_end(co, crs), crs[3])
            &&& t.subrange(committer_start(co, crs), committer_start(co, crs) + 10)
                == committer_head()
            &&& t.subrange(committer_start(co, crs) + 10, committer_end(co, crs))
                == co.committer.text()
            &&& t.subrange(blank_start(co, crs), t.len() as int) == after_committer(co, crs)
        }),
{
    lemma_layout_len(co, crs);
    let t = co.layout(crs);
    lemma_heads_plain();
    lemma_head_person_plain(author_head(), co.author.text(), crs[2]);
    lemma_line_at(
        t,
        author_start(co, crs),
        author_head(),
        co.author.text(),
        crs[2],
        after_author(co, crs),
    );
    lemma_head_person_plain(committer_head(), co.committer.text(), crs[3]);
    lemma_line_at(
        t,
        committer_start(co, crs),
        committer_head(),
        co.committer.text(),
        crs[3],
        after_committer(co, crs),
    );
}

/// The blank line and the message of a commit object text.
proof fn lemma_layout_tail(co: CommitView, crs: Seq<bool>)
    requires
        co.wf(),
        co.canonical(crs),
        co.layout(crs).subrange(blank_start(co, crs), co.layout(crs).len() as int)
            == after_committer(co, crs),
    ensures
        ({
            let t = co.layout(crs);
            &&& blank_start(co, crs) + eol(crs[4]).len() <= t.len()
            &&& t.subrange(blank_start(co, crs), blank_start(co, crs) + eol(crs[4]).len()) == eol(
                crs[4],
            )
            &&& message_start(co, crs) < t.len()
            &&& t.subrange(message_start(co, crs), t.len() as int) == co.message
            &&& t[blank_start(co, crs)] == (if crs[4] { '\r' } else { '\n' })
            &&& (crs[4] ==> t[blank_start(co, crs) + 1] == '\n')
        }),
{
    lemma_layout_len(co, crs);
    let t = co.layout(crs);
    let b0 = blank_start(co, crs);
    let e = eol(crs[4]);
    let m = co.message;
    let u = t.subrange(b0, t.len() as int);
    assert(u.len() == e.len() + m.len());
    assert(t.subrange(b0, b0 + e.len()) =~= e) by {
        assert forall|j: int| 0 <= j < e.len() implies t.subrange(b0, b0 + e.len())[j] == e[j] by {
            assert(u[j] == (e + m)[j]);
        }
    }
    assert(t.subrange(b0 + e.len(), t.len() as int) =~= m) by {
        assert forall|j: int| 0 <= j < m.len() implies t.subrange(b0 + e.len(), t.len() as int)[j]
            == m[j] by {
            assert(u[e.len() + j] == (e + m)[e.len() + j]);
        }
    }
    assert(u[0] == e[0]);
    if crs[4] {
        assert(u[1] == e[1]);
    }
}

/// Where the parts of a commit object text stand.
proof fn lemma_layout_facts(co: CommitView, crs: Seq<bool>)
    requires
        co.wf(),
        co.canonical(crs),
    ensures
        ({
            let t = co.layout(crs);
            let ss = second_start(crs);
            &&& line_ends_at(t, 0, 45, crs[0])
            &&& t.subrange(0, 5) == tree_head()
            &&& t.subrange(5, 45) == co.tree
            &&& (co.parent matches Some(p) ==> {
                &&& line_ends_at(t, ss, ss + 47, crs[1])
                &&& t.subrange(ss, ss + 7) == parent_head()
                &&& t.subrange(ss + 7, ss + 47) == p
            })
            &&& (co.parent is None ==> t.subrange(ss, ss + 7) != parent_head())
            &&& line_ends_at(t, author_start(co, crs), author_end(co, crs), crs[2])
            &&& t.subrange(author_start(co, crs), author_start(co, crs) + 7) == author_head()
            &&& t.subrange(author_start(co, crs) + 7, author_end(co, crs)) == co.author.text()
            &&& line_ends_at(t, committer_start(co, crs), committer_end(co, crs), crs[3])
            &&& t.subrange(committer_start(co, crs), committer_start(co, crs) + 10)
                == committer_head()
            &&& t.subrange(committer_start(co, crs) + 10, committer_end(co, crs))
                == co.committer.text()
            &&& blank_start(co, crs) + eol(crs[4]).len() <= t.len()
            &&& t.subrange(blank_start(co, crs), blank_start(co, crs) + eol(crs[4]).len()) == eol(
                crs[4],
            )
            &&& message_start(co, crs) < t.len()
            &&& t.subrange(message_start(co, crs), t.len() as int) == co.message
            &&& t[blank_start(co, crs)] == (if crs[4] { '\r' } else { '\n' })
            &&& (crs[4] ==> t[blank_start(co, crs) + 1] == '\n')
        }),
{
    lemma_layout_tree(co, crs);
    lemma_layout_parent(co, crs);
    lemma_layout_people(co, crs);
    lemma_layout_tail(co, crs);
}

/// Adjacent pieces of a sequence make up the piece that spans them.
proof fn lemma_join(v: Seq<char>, a: int, b: int, c: int)
    requires
        0 <= a <= b <= c <= v.len(),
    ensures
        v.subrange(a, b) + v.subrange(b, c) == v.subrange(a, c),
{
    assert(v.subrange(a, b) + v.subrange(b, c) =~= v.subrange(a, c));
}

/// A line found by `next_line` reads `head + body + eol` back.
proof fn lemma_line_back(v: Seq<char>, from: int, h: int, k: int, e: int)
    requires
        0 <= from <= h <= k,
        e == k + 1 || e == k + 2,
        line_ends_at(v, from, k, e == k + 2),
    ensures
        v.subrange(from, e) == line(v.subrange(from, h), v.subrange(h, k), e == k + 2),
{
    reveal(line_ends_at);
    lemma_join(v, from, h, k);
    lemma_join(v, from, k, e);
}

/// A text whose lines `try_parse_cat_file` found is the layout of what it read.
proof fn lemma_reassemble(
    t: Seq<char>,
    k0: int,
    e0: int,
    k1: int,
    e1: int,
    pa: int,
    ka: int,
    ea: int,
    kc: int,
    ec: int,
    m: int,
    cv: CommitView,
    crs: Seq<bool>,
)
    requires
        k0 == 45,
        e0 == k0 + 1 || e0 == k0 + 2,
        line_ends_at(t, 0, k0, e0 == k0 + 2),
        t.subrange(0, 5) == tree_head(),
        cv.tree == t.subrange(5, 45),
        all_hex(cv.tree),
        cv.parent matches Some(p) ==> {
            &&& e1 == k1 + 1 || e1 == k1 + 2
            &&& line_ends_at(t, e0, k1, e1 == k1 + 2)
            &&& k1 == e0 + 47
            &&& t.subrange(e0, e0 + 7) == parent_head()
            &&& p == t.subrange(e0 + 7, k1)
            &&& all_hex(p)
            &&& pa == e1
        },
        cv.parent is None ==> pa == e0,
        ea == ka + 1 || ea == ka + 2,
        line_ends_at(t, pa, ka, ea == ka + 2),
        ka >= pa + 7,
        t.subrange(pa, pa + 7) == author_head(),
        cv.author.text() == t.subrange(pa + 7, ka),
        cv.author.wf(),
        ec == kc + 1 || ec == kc + 2,
        line_ends_at(t, ea, kc, ec == kc + 2),
        kc >= ea + 10,
        t.subrange(ea, ea + 10) == committer_head(),
        cv.committer.text() == t.subrange(ea + 10, kc),
        cv.committer.wf(),
        (m == ec + 1 && t[ec] == '\n') || (m == ec + 2 && t[ec] == '\r' && t[ec + 1] == '\n'),
        m < t.len(),
        cv.message == t.subrange(m, t.len() as int),
        crs == seq![e0 == k0 + 2, cv.parent is Some && e1 == k1 + 2, ea == ka + 2, ec == kc + 2, m == ec + 2],
    ensures
        cv.wf(),
        cv.canonical(crs),
        t == cv.layout(crs),
{
    lemma_reassemble_wf(t, pa, ka, ea, kc, ec, cv, crs);
    let n = t.len() as int;
    lemma_line_back(t, 0, 5, k0, e0);
    let l0 = t.subrange(0, e0);
    assert(l0 == line(tree_head(), cv.tree, crs[0]));
    let lp = t.subrange(e0, pa);
    match cv.parent {
        Some(p) => {
            lemma_line_back(t, e0, e0 + 7, k1, e1);
            assert(lp == cv.parent_line(crs[1]));
        },
        None => {
            assert(lp =~= cv.parent_line(crs[1]));
        },
    }
    lemma_line_back(t, pa, pa + 7, ka, ea);
    let la = t.subrange(pa, ea);
    assert(la == line(author_head(), cv.author.text(), crs[2]));
    lemma_line_back(t, ea, ea + 10, kc, ec);
    let lc = t.subrange(ea, ec);
    assert(lc == line(committer_head(), cv.committer.text(), crs[3]));
    let lb = t.subrange(ec, m);
    assert(lb =~= eol(crs[4]));
    let lm = t.subrange(m, n);
    lemma_join(t, 0, e0, pa);
    lemma_join(t, 0, pa, ea);
    lemma_join(t, 0, ea, ec);
    lemma_join(t, 0, ec, m);
    lemma_join(t, 0, m, n);
    assert(t.subrange(0, n) =~= t);
    assert(t == l0 + lp + la + lc + lb + lm);
    reveal(CommitView::layout);
}

/// What `try_parse_cat_file` read is well-formed and its line breaks canonical.
proof fn lemma_reassemble_wf(
    t: Seq<char>,
    pa: int,
    ka: int,
    ea: int,
    kc: int,
    ec: int,
    cv: CommitView,
    crs: Seq<bool>,
)
    requires
        all_hex(cv.tree),
        cv.tree.len() == 40,
        cv.parent matches Some(p) ==> all_hex(p) && p.len() == 40,
        line_ends_at(t, pa, ka, ea == ka + 2),
        ka >= pa + 7,
        cv.author.text() == t.subrange(pa + 7, ka),
        cv.author.wf(),
        line_ends_at(t, ea, kc, ec == kc + 2),
        kc >= ea + 10,
        cv.committer.text() == t.subrange(ea + 10, kc),
        cv.committer.wf(),
        cv.message.len() > 0,
        crs.len() == 5,
        crs[2] == (ea == ka + 2),
        crs[3] == (ec == kc + 2),
    ensures
        cv.wf(),
        cv.canonical(crs),
{
    reveal(line_ends_at);
    assert forall|i: int| 0 <= i < cv.author.text().len() implies cv.author.text()[i] != '\n' by {
        assert(t[pa + 7 + i] != '\n');
    }
    assert forall|i: int| 0 <= i < cv.committer.text().len() implies cv.committer.text()[i]
        != '\n' by {
        assert(t[ea + 10 + i] != '\n');
    }
    assert(cv.author.text().last() == t[ka - 1]);
    assert(cv.committer.text().last() == t[kc - 1]);
}

/// Where `try_parse_cat_file` found the lines of a commit object text.
struct Lines {
    k0: usize,
    e0: usize,
    k1: usize,
    e1: usize,
    parent: bool,
    pa: usize,
    ka: usize,
    ea: usize,
    kc: usize,
    ec: usize,
    m: usize,
}

/// The tree, parent and author lines stand as a commit object text has them.
spec fn head_ok(t: Seq<char>, l: Lines) -> bool {
    &&& l.k0 == 45
    &&& (l.e0 == l.k0 + 1 || l.e0 == l.k0 + 2)
    &&& line_ends_at(t, 0, l.k0 as int, l.e0 == l.k0 + 2)
    &&& t.subrange(0, 5) == tree_head()
    &&& all_hex(t.subrange(5, 45))
    &&& (l.parent ==> {
        &&& (l.e1 == l.k1 + 1 || l.e1 == l.k1 + 2)
        &&& line_ends_at(t, l.e0 as int, l.k1 as int, l.e1 == l.k1 + 2)
        &&& l.k1 == l.e0 + 47
        &&& t.subrange(l.e0 as int, l.e0 + 7) == parent_head()
        &&& all_hex(t.subrange(l.e0 + 7, l.k1 as int))
        &&& l.pa == l.e1
    })
    &&& (!l.parent ==> l.pa == l.e0)
    &&& (l.ea == l.ka + 1 || l.ea == l.ka + 2)
    &&& line_ends_at(t, l.pa as int, l.ka as int, l.ea == l.ka + 2)
    &&& l.ka >= l.pa + 7
    &&& t.subrange(l.pa as int, l.pa + 7) == author_head()
    &&& l.ea <= t.len()
}

/// The committer line and the blank line that start at `ea` stand as a
/// commit object text has them, and a message follows.
spec fn tail_ok(t: Seq<char>, ea: int, kc: int, ec: int, m: int) -> bool {
    &&& (ec == kc + 1 || ec == kc + 2)
    &&& line_ends_at(t, ea, kc, ec == kc + 2)
    &&& kc >= ea + 10
    &&& t.subrange(ea, ea + 10) == committer_head()
    &&& ((m == ec + 1 && t[ec] == '\n') || (m == ec + 2 && t[ec] == '\r' && t[ec + 1] == '\n'))
    &&& m < t.len()
}

/// The lines stand as a commit object text has them.
spec fn lines_ok(t: Seq<char>, l: Lines) -> bool {
    &&& head_ok(t, l)
    &&& tail_ok(t, l.ea as int, l.kc as int, l.ec as int, l.m as int)
}

/// The lines stand where the layout of `co` with breaks `crs` puts them.
spec fn lines_match(l: Lines, co: CommitView, crs: Seq<bool>) -> bool {
    &&& l.e0 == second_start(crs)
    &&& l.parent == co.parent is Some
    &&& (l.parent ==> l.k1 == second_start(crs) + 47)
    &&& l.pa == author_start(co, crs)
    &&& l.ka == author_end(co, crs)
    &&& l.ea == committer_start(co, crs)
    &&& l.kc == committer_end(co, crs)
    &&& l.m == message_start(co, crs)
}

/// Finds the tree, parent and author lines of a commit object text
/// (the fields `kc`, `ec` and `m` are left zero).
#[verifier::spinoff_prover]
fn scan_head(v: &Vec<char>) -> (r: Option<Lines>)
    ensures
        r matches Some(l) ==> head_ok(v@, l),
        forall|co: CommitView, crs: Seq<bool>|
            co.wf() && co.canonical(crs) && v@ == co.layout(crs) ==> (r matches Some(l) && {
                &&& l.e0 == second_start(crs)
                &&& l.parent == co.parent is Some
                &&& (l.parent ==> l.k1 == second_start(crs) + 47)
                &&& l.pa == author_start(co, crs)
                &&& l.ka == author_end(co, crs)
                &&& l.ea == committer_start(co, crs)
            }),
{
    let ghost has_w = exists|co: CommitView, crs: Seq<bool>|
        co.wf() && co.canonical(crs) && v@ == co.layout(crs);
    let ghost w = choose|co: CommitView, crs: Seq<bool>|
        co.wf() && co.canonical(crs) && v@ == co.layout(crs);
    proof {
        reveal_strlit("tree ");
        reveal_strlit("parent ");
        reveal_strlit("author ");
        assert("tree "@ =~= tree_head());
        assert("parent "@ =~= parent_head());
        assert("author "@ =~= author_head());
        if has_w {
            lemma_layout_facts(w.0, w.1);
        }
    }
    let (k0, e0) = match next_line(v, 0) {
        Some(x) => x,
        None => {
                proof {
                    assert(!has_w);
                }
                return None;
            },
    };
    proof {
        if has_w {
            assert(k0 == 45 && e0 == second_start(w.1));
        }
    }
    if k0 != 45 || !has_at(v, 0, "tree ") || !all_hex_in(v, 5, 45) {
                proof {
                    assert(!has_w);
                }
                return None;
            }
    let (k1, e1) = match next_line(v, e0) {
        Some(x) => x,
        None => {
                proof {
                    assert(!has_w);
                }
                return None;
            },
    };
    proof {
        if has_w {
            if w.0.parent is Some {
                assert(k1 == second_start(w.1) + 47);
                assert(e1 == author_start(w.0, w.1));
            } else {
                assert(author_start(w.0, w.1) == second_start(w.1));
                assert(line_ends_at(v@, e0 as int, author_end(w.0, w.1), w.1[2]));
                assert(k1 == author_end(w.0, w.1));
                assert(e1 == committer_start(w.0, w.1));
            }
        }
    }
    let parent: bool;
    let pa: usize;
    let ka: usize;
    let ea: usize;
    if has_at(v, e0, "parent ") && k1 - e0 == 47 && all_hex_in(v, e0 + 7, k1) {
        parent = true;
        pa = e1;
        match next_line(v, e1) {
            Some((a, b)) => {
                ka = a;
                ea = b;
            },
            None => {
                proof {
                    assert(!has_w);
                }
                return None;
            },
        }
    } else {
        parent = false;
        pa = e0;
        ka = k1;
        ea = e1;
    }
    proof {
        if has_w {
            assert(parent == w.0.parent is Some);
            assert(pa == author_start(w.0, w.1));
            assert(ka == author_end(w.0, w.1));
            assert(ea == committer_start(w.0, w.1));
        }
    }
    if !has_at(v, pa, "author ") || ka - pa < 7 {
                proof {
                    assert(!has_w);
                }
                return None;
            }
    let l = Lines { k0, e0, k1, e1, parent, pa, ka, ea, kc: 0, ec: 0, m: 0 };
    assert(head_ok(v@, l));
    proof {
        assert forall|co: CommitView, crs: Seq<bool>|
            co.wf() && co.canonical(crs) && v@ == co.layout(crs) implies {
            &&& l.e0 == second_start(crs)
            &&& l.parent == co.parent is Some
            &&& (l.parent ==> l.k1 == second_start(crs) + 47)
            &&& l.pa == author_start(co, crs)
            &&& l.ka == author_end(co, crs)
            &&& l.ea == committer_start(co, crs)
        } by {
            lemma_layout_facts(co, crs);
        }
    }
    Some(l)
}

/// Finds the committer line and the blank line that start at `ea`.
#[verifier::spinoff_prover]
fn scan_tail(v: &Vec<char>, ea: usize) -> (r: Option<(usize, usize, usize)>)
    requires
        ea <= v@.len(),
    ensures
        r matches Some((kc, ec, m)) ==> tail_ok(v@, ea as int, kc as int, ec as int, m as int),
        forall|co: CommitView, crs: Seq<bool>|
            co.wf() && co.canonical(crs) && v@ == co.layout(crs) && committer_start(co, crs) == ea
                ==> (r matches Some((kc, ec, m)) && kc == committer_end(co, crs) && m
                == message_start(co, crs)),
{
    let ghost has_w = exists|co: CommitView, crs: Seq<bool>|
        co.wf() && co.canonical(crs) && v@ == co.layout(crs) && committer_start(co, crs) == ea;
    let ghost w = choose|co: CommitView, crs: Seq<bool>|
        co.wf() && co.canonical(crs) && v@ == co.layout(crs) && committer_start(co, crs) == ea;
    proof {
        reveal_strlit("committer ");
        assert("committer "@ =~= committer_head());
        if has_w {
            lemma_layout_facts(w.0, w.1);
        }
    }
    let n = v.len();
    let (kc, ec) = match next_line(v, ea) {
        Some(x) => x,
        None => {
                proof {
                    assert(!has_w);
                }
                return None;
            },
    };
    if !has_at(v, ea, "committer ") || kc - ea < 10 {
                proof {
                    assert(!has_w);
                }
                return None;
            }
    let m: usize;
    if ec < n && v[ec] == '\n' {
        m = ec + 1;
    } else if n - ec >= 2 && v[ec] == '\r' && v[ec + 1] == '\n' {
        m = ec + 2;
    } else {
                proof {
                    assert(!has_w);
                }
                return None;
            }
    if m >= n {
                proof {
                    assert(!has_w);
                }
                return None;
            }
    assert(tail_ok(v@, ea as int, kc as int, ec as int, m as int));
    proof {
        assert forall|co: CommitView, crs: Seq<bool>|
            co.wf() && co.canonical(crs) && v@ == co.layout(crs) && committer_start(co, crs) == ea
            implies kc == committer_end(co, crs) && m == message_start(co, crs) by {
            lemma_layout_facts(co, crs);
        }
    }
    Some((kc, ec, m))
}

/// Finds the lines of a commit object text.
fn scan_lines(v: &Vec<char>) -> (r: Option<Lines>)
    ensures
        r matches Some(l) ==> lines_ok(v@, l),
        forall|co: CommitView, crs: Seq<bool>|
            co.wf() && co.canonical(crs) && v@ == co.layout(crs) ==> (r matches Some(l)
                && lines_match(l, co, crs)),
{
    let h = match scan_head(v) {
        Some(h) => h,
        None => {
            return None;
        },
    };
    let (kc, ec, m) = match scan_tail(v, h.ea) {
        Some(x) => x,
        None => {
            return None;
        },
    };
    let l = Lines { kc, ec, m, ..h };
    Some(l)
}

impl CommitObject {
    /// Reads a commit object from the text `git cat-file -p` prints:
    /// `tree T`, an optional `parent P`, `author A`, `committer C`, a blank
    /// line and the message, each line break `\n` or `\r\n`. `None` when the
    /// text has no such form.
    pub fn try_parse_cat_file(s: &str) -> (r: Option<CommitObject>)
        ensures
            r matches Some(c) ==> c@.wf() && exists|crs: Seq<bool>|
                c@.canonical(crs) && s@ == c@.layout(crs),
            r is None ==> forall|co: CommitView, crs: Seq<bool>|
                co.wf() && co.canonical(crs) ==> s@ != co.layout(crs),
            forall|co: CommitView, crs: Seq<bool>|
                co.wf() && co.canonical(crs) && s@ == co.layout(crs) ==> (r matches Some(c) && c@
                    == co),
    {
        let v = chars_of(s);
        let n = v.len();
        let l = match scan_lines(&v) {
            Some(l) => l,
            None => {
                return None;
            },
        };
        let tree = substring(s, 5, 45);
        let parent = if l.parent {
            Some(substring(s, l.e0 + 7, l.k1))
        } else {
            None
        };
        let atext = substring(s, l.pa + 7, l.ka);
        let ctext = substring(s, l.ea + 10, l.kc);
        let message = substring(s, l.m, n);
        let ghost cands = |co: CommitView, crs: Seq<bool>|
            co.wf() && co.canonical(crs) && s@ == co.layout(crs);
        proof {
            assert forall|co: CommitView, crs: Seq<bool>| #[trigger] cands(co, crs) implies
                co.author.text() == atext@ && co.committer.text() == ctext@ && co.tree == tree@
                && co.message == message@ && co.parent == (match parent {
                    Some(p) => Some(p@),
                    None => None::<Seq<char>>,
                }) by {
                lemma_layout_facts(co, crs);
            }
        }
        let author = match Gitter::parse(atext.as_str()) {
            Some(g) => g,
            None => {
                proof {
                    assert forall|co: CommitView, crs: Seq<bool>|
                        co.wf() && co.canonical(crs) implies s@ != co.layout(crs) by {
                        if s@ == co.layout(crs) {
                            assert(cands(co, crs));
                        }
                    }
                }
                return None;
            },
        };
        let committer = match Gitter::parse(ctext.as_str()) {
            Some(g) => g,
            None => {
                proof {
                    assert forall|co: CommitView, crs: Seq<bool>|
                        co.wf() && co.canonical(crs) implies s@ != co.layout(crs) by {
                        if s@ == co.layout(crs) {
                            assert(cands(co, crs));
                        }
                    }
                }
                return None;
            },
        };
        let c = CommitObject { tree, parent, author, committer, message };
        let ghost crs = seq![l.e0 == l.k0 + 2, l.parent && l.e1 == l.k1 + 2, l.ea == l.ka + 2, l.ec == l.kc + 2, l.m == l.ec + 2];
        proof {
            lemma_reassemble(
                v@,
                l.k0 as int,
                l.e0 as int,
                l.k1 as int,
                l.e1 as int,
                l.pa as int,
                l.ka as int,
                l.ea as int,
                l.kc as int,
                l.ec as int,
                l.m as int,
                c@,
                crs,
            );
            assert forall|co: CommitView, crs2: Seq<bool>|
                co.wf() && co.canonical(crs2) && s@ == co.layout(crs2) implies c@ == co by {
                assert(cands(co, crs2));
                assert(c@ =~= co);
            }
        }
        Some(c)
    }

    /// Reads a commit object from `git cat-file -p` output that has the form
    /// `try_parse_cat_file` reads.
    pub fn parse_cat_file(s: &str) -> (r: CommitObject)
        requires
            exists|co: CommitView, crs: Seq<bool>|
                co.wf() && co.canonical(crs) && s@ == co.layout(crs),
        ensures
            r@.wf(),
            exists|crs: Seq<bool>| r@.canonical(crs) && s@ == r@.layout(crs),
            forall|co: CommitView, crs: Seq<bool>|
                co.wf() && co.canonical(crs) && s@ == co.layout(crs) ==> r@ == co,
    {
        match Self::try_parse_cat_file(s) {
            Some(c) => c,
            None => unreached(),
        }
    }

}

} // verus!
