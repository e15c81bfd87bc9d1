use crate::text::{all_hex, chars_of, hex_lower, is_hex_char, lemma_hex_lower_shape, substring};
use vstd::pervasive::unreached;
use vstd::prelude::*;

verus! {

/// `char::is_whitespace`: the Unicode `White_Space` characters.
pub open spec fn is_whitespace(c: char) -> bool {
    ||| ('\u{9}' <= c && c <= '\u{d}')
    ||| c == ' '
    ||| c == '\u{85}'
    ||| c == '\u{a0}'
    ||| c == '\u{1680}'
    ||| ('\u{2000}' <= c && c <= '\u{200a}')
    ||| c == '\u{2028}'
    ||| c == '\u{2029}'
    ||| c == '\u{202f}'
    ||| c == '\u{205f}'
    ||| c == '\u{3000}'
}

/// `s` without its leading whitespace.
pub open spec fn trim_start(s: Seq<char>) -> Seq<char>
    decreases s.len(),
{
    if s.len() > 0 && is_whitespace(s[0]) {
        trim_start(s.drop_first())
    } else {
        s
    }
}

/// `s` without its trailing whitespace.
pub open spec fn trim_end(s: Seq<char>) -> Seq<char>
    decreases s.len(),
{
    if s.len() > 0 && is_whitespace(s.last()) {
        trim_end(s.drop_last())
    } else {
        s
    }
}

/// `s` without leading and trailing whitespace, as `str::trim` gives it.
pub open spec fn trim(s: Seq<char>) -> Seq<char> {
    trim_end(trim_start(s))
}

/// The pieces of `s` between commas, as `str::split(',')` gives them: one
/// more piece than there are commas, empty pieces included.
pub open spec fn split_commas(s: Seq<char>) -> Seq<Seq<char>>
    decreases s.len(),
{
    if s.len() == 0 {
        seq![Seq::empty()]
    } else {
        let r = split_commas(s.drop_last());
        if s.last() == ',' {
            r.push(Seq::empty())
        } else {
            r.update(r.len() - 1, r.last().push(s.last()))
        }
    }
}

/// The patterns a comma-separated list names: each piece, trimmed.
pub open spec fn pattern_list(s: Seq<char>) -> Seq<Seq<char>> {
    split_commas(s).map_values(|p: Seq<char>| trim(p))
}

/// A hash prefix to search for: one to forty lower-case hexadecimal digits.
pub open spec fn is_pattern(p: Seq<char>) -> bool {
    1 <= p.len() <= 40 && all_hex(p)
}

/// A non-empty list of hash prefixes.
pub open spec fn valid_patterns(ps: Seq<Seq<char>>) -> bool {
    ps.len() > 0 && forall|i: int| 0 <= i < ps.len() ==> is_pattern(#[trigger] ps[i])
}

/// The views of a list of strings.
pub open spec fn string_views(v: Seq<String>) -> Seq<Seq<char>> {
    v.map_values(|s: String| s@)
}

/// `num_cpus::get`: the number of logical processors available to this
/// process, as the machine and its limits report it. The crate documents the
/// result as at least one; nothing more is promised of the value.
#[verifier::external_body]
fn cpu_count() -> (r: usize)
    ensures
        r >= 1,
{
    num_cpus::get()
}

/// The default pattern list `0000000` is one valid pattern.
proof fn lemma_default_pattern()
    ensures
        pattern_list(seq!['0', '0', '0', '0', '0', '0', '0']) == seq![seq!['0', '0', '0', '0', '0', '0', '0']],
        valid_patterns(seq![seq!['0', '0', '0', '0', '0', '0', '0']]),
{
    let z = seq!['0', '0', '0', '0', '0', '0', '0'];
    lemma_split_no_comma(z);
    assert(trim_start(z) == z);
    assert(trim_end(z) == z);
    assert(pattern_list(z) =~= seq![z]);
}

/// The patterns are exactly the strings of one to forty characters, each a
/// digit `0` to `9` or a letter `a` to `f`.
pub proof fn lemma_pattern_digits(p: Seq<char>)
    ensures
        is_pattern(p) <==> {
            &&& 1 <= p.len() <= 40
            &&& forall|i: int|
                0 <= i < p.len() ==> ('0' <= #[trigger] p[i] && p[i] <= '9') || ('a' <= p[i] && p[i] <= 'f')
        },
{
}

/// A string of one to forty hexadecimal digits, given alone, is read as the
/// list holding just that pattern, and the list is valid: `parse_patterns`
/// and `Settings::new` accept it.
pub proof fn lemma_digit_string_is_accepted(p: Seq<char>)
    requires
        1 <= p.len() <= 40,
        forall|i: int| 0 <= i < p.len() ==> ('0' <= #[trigger] p[i] && p[i] <= '9') || ('a' <= p[i] && p[i] <= 'f'),
    ensures
        pattern_list(p) == seq![p],
        valid_patterns(pattern_list(p)),
{
    assert(!p.contains(',')) by {
        if p.contains(',') {
            let j = choose|j: int| 0 <= j < p.len() && p[j] == ',';
            assert(('0' <= p[j] && p[j] <= '9') || ('a' <= p[j] && p[j] <= 'f'));
        }
    }
    lemma_split_no_comma(p);
    assert(('0' <= p[0] && p[0] <= '9') || ('a' <= p[0] && p[0] <= 'f'));
    assert(trim_start(p) == p);
    assert(p.last() == p[p.len() - 1]);
    assert(('0' <= p[p.len() - 1] && p[p.len() - 1] <= '9') || ('a' <= p[p.len() - 1] && p[p.len() - 1] <= 'f'));
    assert(trim_end(p) == p);
    assert(pattern_list(p) =~= seq![p]);
    assert(is_pattern(seq![p][0]));
}

/// Every leading part of one to forty characters of a commit id (the
/// hexadecimal form of a twenty-byte digest) is a pattern.
pub proof fn lemma_id_prefixes_are_patterns(d: Seq<u8>, k: int)
    requires
        d.len() == 20,
        1 <= k <= 40,
    ensures
        is_pattern(hex_lower(d).take(k)),
{
    lemma_hex_lower_shape(d);
    let h = hex_lower(d);
    assert forall|i: int| 0 <= i < h.take(k).len() implies is_hex_char(#[trigger] h.take(k)[i]) by {
        assert(h.take(k)[i] == h[i]);
    }
}

/// A text without commas is one piece.
proof fn lemma_split_no_comma(s: Seq<char>)
    requires
        !s.contains(','),
    ensures
        split_commas(s) == seq![s],
    decreases s.len(),
{
    if s.len() > 0 {
        assert(!s.drop_last().contains(',')) by {
            if s.drop_last().contains(',') {
                let j = choose|j: int| 0 <= j < s.drop_last().len() && s.drop_last()[j] == ',';
                assert(s[j] == ',');
            }
        }
        lemma_split_no_comma(s.drop_last());
        assert(s.last() != ',') by {
            assert(s[s.len() - 1] == s.last());
        }
        assert(s.drop_last().push(s.last()) =~= s);
        assert(split_commas(s) =~= seq![s]);
    } else {
        assert(s =~= Seq::<char>::empty());
    }
}

/// `split_commas` always gives at least one piece.
proof fn lemma_split_commas_nonempty(s: Seq<char>)
    ensures
        split_commas(s).len() >= 1,
    decreases s.len(),
{
    if s.len() > 0 {
        lemma_split_commas_nonempty(s.drop_last());
    }
}

/// A pattern list, as `Settings::new` and `Settings::patterns` read it, is
/// never empty: every text has at least one comma-separated piece.
pub proof fn lemma_pattern_list_nonempty(s: Seq<char>)
    ensures
        pattern_list(s).len() >= 1,
{
    lemma_split_commas_nonempty(s);
}

/// Whether `c` is a whitespace character.
pub fn is_whitespace_char(c: char) -> (r: bool)
    ensures
        r == is_whitespace(c),
{
    ('\u{9}' <= c && c <= '\u{d}') || c == ' ' || c == '\u{85}' || c == '\u{a0}' || c == '\u{1680}'
        || ('\u{2000}' <= c && c <= '\u{200a}') || c == '\u{2028}' || c == '\u{2029}' || c
        == '\u{202f}' || c == '\u{205f}' || c == '\u{3000}'
}

/// Skipping leading whitespace one character at a time.
proof fn lemma_trim_start_skip(v: Seq<char>, from: int, a: int, to: int)
    requires
        0 <= from <= a <= to <= v.len(),
        forall|j: int| from <= j < a ==> is_whitespace(v[j]),
        a == to || !is_whitespace(v[a]),
    ensures
        trim_start(v.subrange(from, to)) == v.subrange(a, to),
    decreases a - from,
{
    if from < a {
        assert(v.subrange(from, to).drop_first() =~= v.subrange(from + 1, to));
        lemma_trim_start_skip(v, from + 1, a, to);
    } else {
        if a < to {
            assert(v.subrange(from, to)[0] == v[a]);
        }
    }
}

/// Dropping trailing whitespace one character at a time.
proof fn lemma_trim_end_skip(v: Seq<char>, from: int, b: int, to: int)
    requires
        0 <= from <= b <= to <= v.len(),
        forall|j: int| b <= j < to ==> is_whitespace(v[j]),
        b == from || !is_whitespace(v[b - 1]),
    ensures
        trim_end(v.subrange(from, to)) == v.subrange(from, b),
    decreases to - b,
{
    if b < to {
        assert(v.subrange(from, to).drop_last() =~= v.subrange(from, to - 1));
        lemma_trim_end_skip(v, from, b, to - 1);
    } else {
        if from < b {
            assert(v.subrange(from, to).last() == v[b - 1]);
        }
    }
}

/// The bounds of `trim(v[from..to])` inside `v`.
fn trim_range(v: &Vec<char>, from: usize, to: usize) -> (r: (usize, usize))
    requires
        from <= to <= v@.len(),
    ensures
        from <= r.0 <= r.1 <= to,
        v@.subrange(r.0 as int, r.1 as int) == trim(v@.subrange(from as int, to as int)),
{
    let mut a = from;
    while a < to && is_whitespace_char(v[a])
        invariant
            from <= a <= to <= v@.len(),
            forall|j: int| from <= j < a ==> is_whitespace(v@[j]),
        decreases to - a,
    {
        a = a + 1;
    }
    let mut b = to;
    while b > a && is_whitespace_char(v[b - 1])
        invariant
            a <= b <= to <= v@.len(),
            forall|j: int| b <= j < to ==> is_whitespace(v@[j]),
        decreases b - a,
    {
        b = b - 1;
    }
    proof {
        lemma_trim_start_skip(v@, from as int, a as int, to as int);
        lemma_trim_end_skip(v@, a as int, b as int, to as int);
    }
    (a, b)
}

/// Whether `s` is one to forty lower-case hexadecimal digits.
fn check_pattern(s: &str) -> (r: bool)
    ensures
        r == is_pattern(s@),
{
    let v = chars_of(s);
    if v.len() < 1 || v.len() > 40 {
        return false;
    }
    let mut i: usize = 0;
    while i < v.len()
        invariant
            v@ == s@,
            i <= v@.len(),
            forall|j: int| 0 <= j < i ==> is_hex_char(v@[j]),
        decreases v@.len() - i,
    {
        let c = v[i];
        if !(('0' <= c && c <= '9') || ('a' <= c && c <= 'f')) {
            return false;
        }
        i = i + 1;
    }
    true
}

/// Reads a comma-separated list of hash prefixes, trimming each piece.
/// `None` when a piece is not one to forty lower-case hexadecimal digits.
pub fn parse_patterns(s: &str) -> (r: Option<Vec<String>>)
    ensures
        match r {
            Some(v) => string_views(v@) == pattern_list(s@) && valid_patterns(pattern_list(s@)),
            None => !valid_patterns(pattern_list(s@)),
        },
{
    let v = chars_of(s);
    let n = v.len();
    let mut out: Vec<String> = Vec::new();
    let mut start: usize = 0;
    let mut i: usize = 0;
    let ghost mut done: Seq<Seq<char>> = Seq::empty();
    assert(v@.take(0) =~= Seq::<char>::empty());
    assert(v@.subrange(0, 0) =~= Seq::<char>::empty());
    while i < n
        invariant
            v@ == s@,
            n == v@.len(),
            start <= i <= n,
            split_commas(v@.take(i as int)) == done.push(v@.subrange(start as int, i as int)),
            string_views(out@) == done.map_values(|p: Seq<char>| trim(p)),
        decreases n - i,
    {
        let ghost prev = v@.take(i as int);
        assert(v@.take(i + 1).drop_last() =~= prev);
        assert(v@.take(i + 1).last() == v@[i as int]);
        if v[i] == ',' {
            let (a, b) = trim_range(&v, start, i);
            let piece = substring(s, a, b);
            let ghost old_out = out@;
            let ghost old_done = done;
            out.push(piece);
            proof {
                done = done.push(v@.subrange(start as int, i as int));
                assert(string_views(old_out).len() == old_out.len());
                assert(old_done.map_values(|p: Seq<char>| trim(p)).len() == old_done.len());
                assert(out@.len() == done.len());
                assert forall|j: int| 0 <= j < out@.len() implies string_views(out@)[j]
                    == done.map_values(|p: Seq<char>| trim(p))[j] by {
                    assert(out@[j] == if j < old_out.len() { old_out[j] } else { piece });
                    if j < old_out.len() {
                        assert(string_views(old_out)[j] == old_done.map_values(|p: Seq<char>| trim(p))[j]);
                    }
                }
                assert(string_views(out@) =~= done.map_values(|p: Seq<char>| trim(p)));
                assert(v@.subrange((i + 1) as int, (i + 1) as int) =~= Seq::<char>::empty());
                assert(split_commas(v@.take(i + 1)) =~= done.push(Seq::empty()));
            }
            start = i + 1;
        } else {
            proof {
                let d = done.push(v@.subrange(start as int, i as int));
                assert(v@.subrange(start as int, i + 1) =~= v@.subrange(start as int, i as int).push(v@[i as int]));
                assert(split_commas(v@.take(i + 1)) =~= d.update(d.len() - 1, d.last().push(v@[i as int])));
                assert(d.update(d.len() - 1, d.last().push(v@[i as int])) =~= done.push(v@.subrange(start as int, i + 1)));
            }
        }
        i = i + 1;
    }
    let (a, b) = trim_range(&v, start, n);
    let piece = substring(s, a, b);
    let ghost old_out = out@;
    out.push(piece);
    proof {
        assert(v@.take(n as int) =~= v@);
        let full = done.push(v@.subrange(start as int, n as int));
        assert(string_views(old_out).len() == old_out.len());
        assert(done.map_values(|p: Seq<char>| trim(p)).len() == done.len());
        assert(out@.len() == full.len());
        assert forall|j: int| 0 <= j < out@.len() implies string_views(out@)[j]
            == full.map_values(|p: Seq<char>| trim(p))[j] by {
            assert(out@[j] == if j < old_out.len() { old_out[j] } else { piece });
            if j < old_out.len() {
                assert(string_views(old_out)[j] == done.map_values(|p: Seq<char>| trim(p))[j]);
            }
        }
        assert(string_views(out@) =~= full.map_values(|p: Seq<char>| trim(p)));
        assert(string_views(out@) == pattern_list(s@));
    }
    let mut k: usize = 0;
    while k < out.len()
        invariant
            string_views(out@) == pattern_list(s@),
            pattern_list(s@).len() == out@.len(),
            out@.len() >= 1,
            k <= out@.len(),
            forall|j: int| 0 <= j < k ==> is_pattern(#[trigger] pattern_list(s@)[j]),
        decreases out@.len() - k,
    {
        if !check_pattern(out[k].as_str()) {
            assert(string_views(out@)[k as int] == out@[k as int]@);
            return None;
        }
        assert(string_views(out@)[k as int] == out@[k as int]@);
        k = k + 1;
    }
    Some(out)
}

/// What the search is given: the repository path, the hash prefixes to look
/// for, the number of chain steps per thread and round (as a power of two),
/// and the number of threads.
#[derive(Clone)]
pub struct Settings {
    pub path: String,
    pub patterns: Vec<String>,
    pub block_size: usize,
    pub jobs: usize,
}

impl Settings {
    /// At least one valid pattern, at least one thread, and fewer than 64
    /// doublings of the block.
    pub open spec fn wf(&self) -> bool {
        &&& valid_patterns(string_views(self.patterns@))
        &&& self.jobs > 0
        &&& self.block_size < 64
    }

    /// Settings for the repository at `path`, the comma-separated hash
    /// prefixes `patterns`, blocks of `2^block_size` hashes and `jobs` threads.
    /// Each pattern is 1 to 40 hexadecimal digits; `jobs` is positive and
    /// `block_size` is below 64.
    pub fn new(path: &str, patterns: &str, block_size: usize, jobs: usize) -> (r: Self)
        requires
            valid_patterns(pattern_list(patterns@)),
            jobs > 0,
            block_size < 64,
        ensures
            r.path@ == path@,
            string_views(r.patterns@) == pattern_list(patterns@),
            r.block_size == block_size,
            r.jobs == jobs,
            r.wf(),
    {
        let parsed = match parse_patterns(patterns) {
            Some(v) => v,
            None => unreached(),
        };
        Settings { path: path.to_owned(), patterns: parsed, block_size, jobs }
    }

    /// The settings used when no flag overrides them, for the repository at
    /// `path` on a machine with `cpus` processors: the pattern `0000000`,
    /// blocks of `2^20` hashes and one thread less than there are processors.
    pub fn with_cpus(path: &str, cpus: usize) -> (r: Self)
        requires
            cpus >= 2,
        ensures
            r.path@ == path@,
            string_views(r.patterns@) == seq![seq!['0', '0', '0', '0', '0', '0', '0']],
            r.block_size == 20,
            r.jobs == cpus - 1,
            r.wf(),
    {
        proof {
            lemma_default_pattern();
            reveal_strlit("0000000");
            assert("0000000"@ =~= seq!['0', '0', '0', '0', '0', '0', '0']);
        }
        Self::new(path, "0000000", 20, cpus - 1)
    }

    /// The default settings for the repository at `path`, with one thread
    /// less than `num_cpus::get` reports; `None` when it reports fewer than
    /// two processors (no thread would be left).
    pub fn default_at(path: &str) -> (r: Option<Self>)
        ensures
            r matches Some(s) ==> {
                &&& s.path@ == path@
                &&& string_views(s.patterns@) == seq![seq!['0', '0', '0', '0', '0', '0', '0']]
                &&& s.block_size == 20
                &&& s.jobs >= 1
                &&& s.wf()
            },
            exists|cpus: usize| cpus >= 1 && #[trigger] Self::for_cpus_result(path@, cpus, r),
    {
        let (r, _cpus) = Self::default_at_observed(path);
        r
    }

    /// `r` is what `for_cpus(path, cpus)` gives: `None` below two
    /// processors, else the default pattern, blocks of `2^20` hashes and
    /// `cpus - 1` threads.
    pub open spec fn for_cpus_result(path: Seq<char>, cpus: usize, r: Option<Self>) -> bool {
        match r {
            None => cpus < 2,
            Some(s) => {
                &&& cpus >= 2
                &&& s.path@ == path
                &&& string_views(s.patterns@) == seq![seq!['0', '0', '0', '0', '0', '0', '0']]
                &&& s.block_size == 20
                &&& s.jobs == cpus - 1
            },
        }
    }

    /// The default settings for the repository at `path` (see `default_at`),
    /// with the processor count that `num_cpus::get` reported: the settings
    /// use one thread less than that count.
    pub fn default_at_observed(path: &str) -> (r: (Option<Self>, Ghost<usize>))
        ensures
            r.1@ >= 1,
            Self::for_cpus_result(path@, r.1@, r.0),
            r.0 matches Some(s) ==> s.wf(),
    {
        let cpus = cpu_count();
        (Self::for_cpus(path, cpus), Ghost(cpus))
    }

    /// The default settings for the repository at `path` on a machine with
    /// `cpus` processors: `with_cpus(path, cpus)`, or `None` when `cpus` is
    /// below two (no thread would be left).
    pub fn for_cpus(path: &str, cpus: usize) -> (r: Option<Self>)
        ensures
            r is None <==> cpus < 2,
            Self::for_cpus_result(path@, cpus, r),
            r matches Some(s) ==> {
                &&& s.path@ == path@
                &&& string_views(s.patterns@) == seq![seq!['0', '0', '0', '0', '0', '0', '0']]
                &&& s.block_size == 20
                &&& s.jobs == cpus - 1
                &&& s.wf()
            },
    {
        if cpus < 2 {
            None
        } else {
            Some(Self::with_cpus(path, cpus))
        }
    }

    /// Replaces the patterns by the comma-separated list `patterns`.
    pub fn patterns(&mut self, patterns: &str)
        requires
            valid_patterns(pattern_list(patterns@)),
        ensures
            string_views(final(self).patterns@) == pattern_list(patterns@),
            old(self).wf() ==> final(self).wf(),
            final(self).path == old(self).path,
            final(self).block_size == old(self).block_size,
            final(self).jobs == old(self).jobs,
    {
        let parsed = match parse_patterns(patterns) {
            Some(v) => v,
            None => unreached(),
        };
        self.patterns = parsed;
    }

    /// Sets the number of threads.
    pub fn jobs(&mut self, jobs: usize)
        requires
            jobs > 0,
        ensures
            final(self).jobs == jobs,
            old(self).wf() ==> final(self).wf(),
            final(self).path == old(self).path,
            final(self).patterns == old(self).patterns,
            final(self).block_size == old(self).block_size,
    {
        self.jobs = jobs;
    }

    /// Sets the block size: each thread hashes `2^block_size` names per round.
    pub fn block_size(&mut self, block_size: usize)
        requires
            block_size < 64,
        ensures
            final(self).block_size == block_size,
            old(self).wf() ==> final(self).wf(),
            final(self).path == old(self).path,
            final(self).patterns == old(self).patterns,
            final(self).jobs == old(self).jobs,
    {
        self.block_size = block_size;
    }
}

} // verus!
