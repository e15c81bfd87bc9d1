# commit_artist

Rewrites the committer name of the latest git commit so that the commit id
starts with a chosen hexadecimal prefix, by searching hash chains in
parallel threads.

- `src/` is the library, verified with Verus:
  - `git/mod.rs`: a person of a commit (`name <user@domain> time`), read and written back.
  - `git/commit_object.rs`: the commit object, its text, its size in bytes, its id (SHA-1), and the
    text before and after the committer name used to hash many names quickly.
  - `git/cat_file.rs`: reading `git cat-file -p` output, with a proof that every well-formed
    commit is read back from its text and that a text reads only one way.
  - `settings.rs`: the search settings and the comma-separated pattern list.
  - `search.rs`: one thread's round of the search; a name it returns gives a commit id that
    starts with one of the patterns.
  - `command.rs`: the arguments and environment of `git commit-tree`.
  - `text.rs`, `hash.rs`: character-sequence helpers and the SHA-1 hasher.
- `app/` is the command-line program: flags, `git` processes, threads.
- `tests/` exercise the library on concrete commits.
