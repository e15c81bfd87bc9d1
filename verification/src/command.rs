use crate::git::commit_object::{
    author_head, commit_id, commit_word, committer_head, eol, line, parent_head, tree_head,
    CommitObject, CommitView,
};
use crate::hash::sha1_digest;
use crate::text::{decimal, hex_lower, utf8_len};
use vstd::utf8::encode_utf8;
use crate::settings::string_views;
use vstd::prelude::*;

verus! {

/// The arguments of `git commit-tree` that rebuild the commit in the
/// repository at `path`: `-C path commit-tree TREE [-p PARENT] -F -`
/// (the message comes on standard input).
pub open spec fn commit_tree_args_spec(path: Seq<char>, co: CommitView) -> Seq<Seq<char>> {
    seq![seq!['-', 'C'], path, seq!['c', 'o', 'm', 'm', 'i', 't', '-', 't', 'r', 'e', 'e'], co.tree]
        + match co.parent {
        Some(p) => seq![seq!['-', 'p'], p],
        None => Seq::empty(),
    } + seq![seq!['-', 'F'], seq!['-']]
}

/// The environment of `git commit-tree` that keeps the author and the
/// committer of the commit, with `name` as the committer's name.
pub open spec fn commit_tree_env_spec(co: CommitView, name: Seq<char>) -> Seq<(Seq<char>, Seq<char>)> {
    seq![
        (seq!['G', 'I', 'T', '_', 'A', 'U', 'T', 'H', 'O', 'R', '_', 'N', 'A', 'M', 'E'], co.author.name),
        (seq!['G', 'I', 'T', '_', 'A', 'U', 'T', 'H', 'O', 'R', '_', 'E', 'M', 'A', 'I', 'L'], co.author.email()),
        (seq!['G', 'I', 'T', '_', 'A', 'U', 'T', 'H', 'O', 'R', '_', 'D', 'A', 'T', 'E'], co.author.time),
        (seq!['G', 'I', 'T', '_', 'C', 'O', 'M', 'M', 'I', 'T', 'T', 'E', 'R', '_', 'N', 'A', 'M', 'E'], name),
        (seq!['G', 'I', 'T', '_', 'C', 'O', 'M', 'M', 'I', 'T', 'T', 'E', 'R', '_', 'E', 'M', 'A', 'I', 'L'], co.committer.email()),
        (seq!['G', 'I', 'T', '_', 'C', 'O', 'M', 'M', 'I', 'T', 'T', 'E', 'R', '_', 'D', 'A', 'T', 'E'], co.committer.time),
    ]
}

/// The value the environment `env` gives the variable `key`: that of its
/// last entry for `key`, as a process environment built entry by entry
/// keeps it; empty when there is none.
pub open spec fn env_value(env: Seq<(Seq<char>, Seq<char>)>, key: Seq<char>) -> Seq<char>
    decreases env.len(),
{
    if env.len() == 0 {
        Seq::empty()
    } else if env.last().0 == key {
        env.last().1
    } else {
        env_value(env.drop_last(), key)
    }
}

/// The identity `git commit-tree` records from the variables `NAME`, `EMAIL`
/// and `DATE` of `env`: `name <email> date`.
pub open spec fn env_ident(
    env: Seq<(Seq<char>, Seq<char>)>,
    name_key: Seq<char>,
    email_key: Seq<char>,
    date_key: Seq<char>,
) -> Seq<char> {
    env_value(env, name_key) + seq![' ', '<'] + env_value(env, email_key) + seq!['>', ' ']
        + env_value(env, date_key)
}

/// The parent lines that the options `opts` of `git commit-tree` ask for:
/// one for each `-p`, in order; `-F` takes its value along.
pub open spec fn option_parent_lines(opts: Seq<Seq<char>>) -> Seq<char>
    decreases opts.len(),
{
    if opts.len() >= 2 && opts[0] == seq!['-', 'p'] {
        line(parent_head(), opts[1], false) + option_parent_lines(opts.skip(2))
    } else if opts.len() >= 2 && opts[0] == seq!['-', 'F'] {
        option_parent_lines(opts.skip(2))
    } else if opts.len() >= 1 {
        option_parent_lines(opts.skip(1))
    } else {
        Seq::empty()
    }
}

/// The commit text that `git -C path commit-tree TREE OPTIONS` writes, given
/// the arguments `args`, the environment `env` and the message on standard
/// input: the tree line, the parent lines, the author and committer lines
/// from the environment, an empty line and the message.
pub open spec fn commit_tree_text(
    args: Seq<Seq<char>>,
    env: Seq<(Seq<char>, Seq<char>)>,
    message: Seq<char>,
) -> Seq<char> {
    line(tree_head(), args[3], false) + option_parent_lines(args.skip(4)) + line(
        author_head(),
        env_ident(
            env,
            seq!['G', 'I', 'T', '_', 'A', 'U', 'T', 'H', 'O', 'R', '_', 'N', 'A', 'M', 'E'],
            seq!['G', 'I', 'T', '_', 'A', 'U', 'T', 'H', 'O', 'R', '_', 'E', 'M', 'A', 'I', 'L'],
            seq!['G', 'I', 'T', '_', 'A', 'U', 'T', 'H', 'O', 'R', '_', 'D', 'A', 'T', 'E'],
        ),
        false,
    ) + line(
        committer_head(),
        env_ident(
            env,
            seq!['G', 'I', 'T', '_', 'C', 'O', 'M', 'M', 'I', 'T', 'T', 'E', 'R', '_', 'N', 'A', 'M', 'E'],
            seq!['G', 'I', 'T', '_', 'C', 'O', 'M', 'M', 'I', 'T', 'T', 'E', 'R', '_', 'E', 'M', 'A', 'I', 'L'],
            seq!['G', 'I', 'T', '_', 'C', 'O', 'M', 'M', 'I', 'T', 'T', 'E', 'R', '_', 'D', 'A', 'T', 'E'],
        ),
        false,
    ) + eol(false) + message
}

/// What `git commit-tree` writes from `commit_tree_args` and
/// `commit_tree_env` with the commit's message is the commit itself with the
/// new committer name: the same tree, parent, author, committer e-mail and
/// date, and message. So the rewritten commit gets the id that the search
/// hashed for that name.
pub proof fn lemma_commit_tree_rebuilds_commit(path: Seq<char>, co: CommitView, name: Seq<char>)
    ensures
        commit_tree_text(commit_tree_args_spec(path, co), commit_tree_env_spec(co, name), co.message)
            == co.with_committer_name(name).text(),
        ({
            let t = commit_tree_text(commit_tree_args_spec(path, co), commit_tree_env_spec(co, name), co.message);
            hex_lower(sha1_digest(encode_utf8(commit_word() + decimal(utf8_len(t)) + seq!['\0'] + t)))
                == commit_id(co.with_committer_name(name))
        }),
{
    let args = commit_tree_args_spec(path, co);
    let env = commit_tree_env_spec(co, name);
    let an = seq!['G', 'I', 'T', '_', 'A', 'U', 'T', 'H', 'O', 'R', '_', 'N', 'A', 'M', 'E'];
    let ae = seq!['G', 'I', 'T', '_', 'A', 'U', 'T', 'H', 'O', 'R', '_', 'E', 'M', 'A', 'I', 'L'];
    let ad = seq!['G', 'I', 'T', '_', 'A', 'U', 'T', 'H', 'O', 'R', '_', 'D', 'A', 'T', 'E'];
    let cn = seq!['G', 'I', 'T', '_', 'C', 'O', 'M', 'M', 'I', 'T', 'T', 'E', 'R', '_', 'N', 'A', 'M', 'E'];
    let ce = seq!['G', 'I', 'T', '_', 'C', 'O', 'M', 'M', 'I', 'T', 'T', 'E', 'R', '_', 'E', 'M', 'A', 'I', 'L'];
    let cd = seq!['G', 'I', 'T', '_', 'C', 'O', 'M', 'M', 'I', 'T', 'T', 'E', 'R', '_', 'D', 'A', 'T', 'E'];
    // the six keys differ pairwise
    assert(an[11] == 'N' && ad[11] == 'D');
    assert(cn[14] == 'N' && cd[14] == 'D');
    assert(an.len() == 15 && ae.len() == 16 && ad.len() == 15);
    assert(cn.len() == 18 && ce.len() == 19 && cd.len() == 18);
    let e5 = env.drop_last();
    let e4 = e5.drop_last();
    let e3 = e4.drop_last();
    let e2 = e3.drop_last();
    let e1 = e2.drop_last();
    assert(env.last() == (cd, co.committer.time));
    assert(e5.last() == (ce, co.committer.email()));
    assert(e4.last() == (cn, name));
    assert(e3.last() == (ad, co.author.time));
    assert(e2.last() == (ae, co.author.email()));
    assert(e1.last() == (an, co.author.name));
    assert(env_value(env, cd) == co.committer.time);
    assert(env_value(env, ce) == env_value(e5, ce));
    assert(env_value(e5, ce) == co.committer.email());
    assert(env_value(env, cn) == env_value(e5, cn));
    assert(env_value(e5, cn) == env_value(e4, cn));
    assert(env_value(e4, cn) == name);
    assert(env_value(env, ad) == env_value(e5, ad));
    assert(env_value(e5, ad) == env_value(e4, ad));
    assert(env_value(e4, ad) == env_value(e3, ad));
    assert(env_value(e3, ad) == co.author.time);
    assert(env_value(env, ae) == env_value(e5, ae));
    assert(env_value(e5, ae) == env_value(e4, ae));
    assert(env_value(e4, ae) == env_value(e3, ae));
    assert(env_value(e3, ae) == env_value(e2, ae));
    assert(env_value(e2, ae) == co.author.email());
    assert(env_value(env, an) == env_value(e5, an));
    assert(env_value(e5, an) == env_value(e4, an));
    assert(env_value(e4, an) == env_value(e3, an));
    assert(env_value(e3, an) == env_value(e2, an));
    assert(env_value(e2, an) == env_value(e1, an));
    assert(env_value(e1, an) == co.author.name);
    // the options after the tree
    let opts = args.skip(4);
    let f = seq![seq!['-', 'F'], seq!['-']];
    assert(f[0] == seq!['-', 'F']);
    assert(seq!['-', 'F'][1] == 'F' && seq!['-', 'p'][1] == 'p');
    assert(option_parent_lines(f.skip(2)) == Seq::<char>::empty());
    assert(option_parent_lines(f) == Seq::<char>::empty());
    match co.parent {
        Some(p) => {
            assert(opts =~= seq![seq!['-', 'p'], p] + f);
            assert(opts.skip(2) =~= f);
            assert(option_parent_lines(opts) == line(parent_head(), p, false));
            assert(option_parent_lines(opts) =~= co.parent_line(false));
        },
        None => {
            assert(opts =~= f);
            assert(option_parent_lines(opts) =~= co.parent_line(false));
        },
    }
    assert(args[3] == co.tree);
    let c2 = co.with_committer_name(name);
    assert(env_ident(env, an, ae, ad) =~= c2.author.text());
    assert(env_ident(env, cn, ce, cd) =~= c2.committer.text());
    assert(commit_tree_text(args, env, co.message) =~= c2.text());
}

/// The views of a list of string pairs.
pub open spec fn pair_views(v: Seq<(String, String)>) -> Seq<(Seq<char>, Seq<char>)> {
    v.map_values(|p: (String, String)| (p.0@, p.1@))
}

/// The arguments for `git commit-tree` that writes `co` anew in the
/// repository at `path`.
pub fn commit_tree_args(path: &str, co: &CommitObject) -> (r: Vec<String>)
    ensures
        string_views(r@) == commit_tree_args_spec(path@, co@),
{
    let mut args: Vec<String> = Vec::new();
    args.push("-C".to_owned());
    args.push(path.to_owned());
    args.push("commit-tree".to_owned());
    args.push(co.tree.clone());
    match &co.parent {
        Some(p) => {
            args.push("-p".to_owned());
            args.push(p.clone());
        },
        None => {},
    }
    args.push("-F".to_owned());
    args.push("-".to_owned());
    proof {
        reveal_strlit("-C");
        assert("-C"@ =~= seq!['-', 'C']);
        reveal_strlit("commit-tree");
        assert("commit-tree"@ =~= seq!['c', 'o', 'm', 'm', 'i', 't', '-', 't', 'r', 'e', 'e']);
        reveal_strlit("-p");
        assert("-p"@ =~= seq!['-', 'p']);
        reveal_strlit("-F");
        assert("-F"@ =~= seq!['-', 'F']);
        reveal_strlit("-");
        assert("-"@ =~= seq!['-']);
    }
    assert(string_views(args@) =~= commit_tree_args_spec(path@, co@));
    args
}

/// The environment for `git commit-tree`: the author's name, e-mail and
/// date, and the committer's e-mail and date as `co` records them, with
/// `new_committer_name` as the committer's name.
pub fn commit_tree_env(co: &CommitObject, new_committer_name: &str) -> (r: Vec<(String, String)>)
    ensures
        pair_views(r@) == commit_tree_env_spec(co@, new_committer_name@),
{
    let mut env: Vec<(String, String)> = Vec::new();
    env.push(("GIT_AUTHOR_NAME".to_owned(), co.author.name.clone()));
    env.push(("GIT_AUTHOR_EMAIL".to_owned(), co.author.email()));
    env.push(("GIT_AUTHOR_DATE".to_owned(), co.author.time.clone()));
    env.push(("GIT_COMMITTER_NAME".to_owned(), new_committer_name.to_owned()));
    env.push(("GIT_COMMITTER_EMAIL".to_owned(), co.committer.email()));
    env.push(("GIT_COMMITTER_DATE".to_owned(), co.committer.time.clone()));
    proof {
        reveal_strlit("GIT_AUTHOR_NAME");
        assert("GIT_AUTHOR_NAME"@ =~= seq!['G', 'I', 'T', '_', 'A', 'U', 'T', 'H', 'O', 'R', '_', 'N', 'A', 'M', 'E']);
        reveal_strlit("GIT_AUTHOR_EMAIL");
        assert("GIT_AUTHOR_EMAIL"@ =~= seq!['G', 'I', 'T', '_', 'A', 'U', 'T', 'H', 'O', 'R', '_', 'E', 'M', 'A', 'I', 'L']);
        reveal_strlit("GIT_AUTHOR_DATE");
        assert("GIT_AUTHOR_DATE"@ =~= seq!['G', 'I', 'T', '_', 'A', 'U', 'T', 'H', 'O', 'R', '_', 'D', 'A', 'T', 'E']);
        reveal_strlit("GIT_COMMITTER_NAME");
        assert("GIT_COMMITTER_NAME"@ =~= seq!['G', 'I', 'T', '_', 'C', 'O', 'M', 'M', 'I', 'T', 'T', 'E', 'R', '_', 'N', 'A', 'M', 'E']);
        reveal_strlit("GIT_COMMITTER_EMAIL");
        assert("GIT_COMMITTER_EMAIL"@ =~= seq!['G', 'I', 'T', '_', 'C', 'O', 'M', 'M', 'I', 'T', 'T', 'E', 'R', '_', 'E', 'M', 'A', 'I', 'L']);
        reveal_strlit("GIT_COMMITTER_DATE");
        assert("GIT_COMMITTER_DATE"@ =~= seq!['G', 'I', 'T', '_', 'C', 'O', 'M', 'M', 'I', 'T', 'T', 'E', 'R', '_', 'D', 'A', 'T', 'E']);
    }
    assert(pair_views(env@) =~= commit_tree_env_spec(co@, new_committer_name@));
    env
}

} // verus!
