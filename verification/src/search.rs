use crate::git::commit_object::{
    commit_id, lemma_midstate, lemma_rename_utf8_len, prefix_text, suffix_text, CommitObject,
    CommitView,
};
use crate::hash::{
    hasher_clone, hasher_finalize, hasher_input, hasher_update, sha1_digest, Sha1Hasher,
};
use crate::settings::string_views;
use crate::text::{
    all_hex, chars_of, decimal, hex_digits, hex_lower, hex_starts_with, hex_string,
    lemma_ascii_utf8_len, lemma_hex_is_ascii, lemma_hex_lower_shape, lemma_utf8_len_concat,
    push_decimal, utf8_len,
};
use std::sync::atomic::AtomicBool;
use vstd::prelude::*;
use vstd::utf8::encode_utf8;

verus! {

/// The views of a list of character vectors.
pub open spec fn char_views(v: Seq<Vec<char>>) -> Seq<Seq<char>> {
    v.map_values(|p: Vec<char>| p@)
}

/// One of `patterns` is a prefix of `h`.
pub open spec fn matches_any(patterns: Seq<Seq<char>>, h: Seq<char>) -> bool {
    exists|i: int| 0 <= i < patterns.len() && #[trigger] patterns[i].is_prefix_of(h)
}

/// A pattern at any position of the list counts: when it is a prefix of
/// `h`, the list matches `h`.
pub proof fn lemma_match_at_any_position(ps: Seq<Seq<char>>, h: Seq<char>, i: int)
    requires
        0 <= i < ps.len(),
        ps[i].is_prefix_of(h),
    ensures
        matches_any(ps, h),
{
}

/// A list of patterns matches exactly when one of its two parts does, so
/// neither the order nor the grouping of the patterns matters.
pub proof fn lemma_match_concat(ps1: Seq<Seq<char>>, ps2: Seq<Seq<char>>, h: Seq<char>)
    ensures
        matches_any(ps1 + ps2, h) == (matches_any(ps1, h) || matches_any(ps2, h)),
        matches_any(ps1 + ps2, h) == matches_any(ps2 + ps1, h),
{
    let a = ps1 + ps2;
    let b = ps2 + ps1;
    if matches_any(ps1, h) {
        let i = choose|i: int| 0 <= i < ps1.len() && #[trigger] ps1[i].is_prefix_of(h);
        assert(a[i] == ps1[i]);
        assert(b[ps2.len() + i] == ps1[i]);
    }
    if matches_any(ps2, h) {
        let i = choose|i: int| 0 <= i < ps2.len() && #[trigger] ps2[i].is_prefix_of(h);
        assert(a[ps1.len() + i] == ps2[i]);
        assert(b[i] == ps2[i]);
    }
    if matches_any(a, h) {
        let i = choose|i: int| 0 <= i < a.len() && #[trigger] a[i].is_prefix_of(h);
        if i < ps1.len() {
            assert(a[i] == ps1[i]);
        } else {
            assert(a[i] == ps2[i - ps1.len()]);
        }
    }
    if matches_any(b, h) {
        let i = choose|i: int| 0 <= i < b.len() && #[trigger] b[i].is_prefix_of(h);
        if i < ps2.len() {
            assert(b[i] == ps2[i]);
        } else {
            assert(b[i] == ps1[i - ps2.len()]);
        }
    }
}

/// The next hash of the chain: the id of the commit with committer name `h`.
pub open spec fn next_hash(co: CommitView, h: Seq<char>) -> Seq<char> {
    commit_id(co.with_committer_name(h))
}

/// The `k`-th hash of the chain that starts at `h`.
pub open spec fn chain(co: CommitView, h: Seq<char>, k: nat) -> Seq<char>
    decreases k,
{
    if k == 0 {
        h
    } else {
        next_hash(co, chain(co, h, (k - 1) as nat))
    }
}

/// The committer name a search thread starts from: the id of the commit
/// whose committer name has the thread's seed appended.
pub open spec fn seeded_start(co: CommitView, seed: nat) -> Seq<char> {
    commit_id(co.with_committer_name(co.committer.name + decimal(seed)))
}

/// `h` is the first name of the chain from `start`, within `steps` names,
/// whose commit id starts with one of `ps`.
pub open spec fn first_match_within(
    co: CommitView,
    start: Seq<char>,
    ps: Seq<Seq<char>>,
    h: Seq<char>,
    steps: nat,
) -> bool {
    exists|k: nat|
        {
            &&& k < steps
            &&& h == #[trigger] chain(co, start, k)
            &&& matches_any(ps, next_hash(co, h))
            &&& forall|j: nat| j < k ==> !matches_any(ps, #[trigger] next_hash(co, chain(co, start, j)))
        }
}

/// What one thread's round of the search ended with.
pub enum BlockOutcome {
    /// A committer name whose commit id starts with one of the patterns.
    Found(String),
    /// No name of the round gave a matching commit id.
    Exhausted,
    /// Another thread asked this one to stop.
    Stopped,
}

/// `pow10(k)` is ten to the `k`.
spec fn pow10(k: nat) -> nat
    decreases k,
{
    if k == 0 {
        1
    } else {
        10 * pow10((k - 1) as nat)
    }
}

/// A decimal numeral of `d` digits is at least `10^(d-1)`, and its digits are hexadecimal.
proof fn lemma_decimal_shape(n: nat)
    ensures
        decimal(n).len() >= 1,
        pow10((decimal(n).len() - 1) as nat) <= n || n == 0,
        all_hex(decimal(n)),
    decreases n,
{
    if n >= 10 {
        lemma_decimal_shape(n / 10);
        let d = decimal(n / 10);
        assert(decimal(n) == d.push(hex_digits()[(n % 10) as int]));
        assert(pow10((decimal(n).len() - 1) as nat) == 10 * pow10((d.len() - 1) as nat));
        assert forall|i: int| 0 <= i < decimal(n).len() implies crate::text::is_hex_char(
            #[trigger] decimal(n)[i],
        ) by {
            if i < d.len() {
                assert(decimal(n)[i] == d[i]);
            }
        }
    }
}

/// The decimal numeral of a `usize` has at most twenty ASCII digits.
proof fn lemma_decimal_usize(n: usize)
    ensures
        utf8_len(decimal(n as nat)) == decimal(n as nat).len(),
        decimal(n as nat).len() <= 20,
{
    lemma_decimal_shape(n as nat);
    lemma_hex_is_ascii(decimal(n as nat));
    lemma_ascii_utf8_len(decimal(n as nat));
    if decimal(n as nat).len() > 20 {
        lemma_pow10_mono(20, (decimal(n as nat).len() - 1) as nat);
        reveal_with_fuel(pow10, 21);
        assert(pow10(20) == 100000000000000000000nat);
    }
}

/// `pow10` grows with its exponent.
proof fn lemma_pow10_mono(a: nat, b: nat)
    requires
        a <= b,
    ensures
        pow10(a) <= pow10(b),
    decreases b,
{
    if a < b {
        lemma_pow10_mono(a, (b - 1) as nat);
    }
}

/// Forty hexadecimal digits take forty bytes.
proof fn lemma_hash_utf8_len(h: Seq<char>)
    requires
        h.len() == 40,
        all_hex(h),
    ensures
        utf8_len(h) == 40,
{
    lemma_hex_is_ascii(h);
    lemma_ascii_utf8_len(h);
}

/// Whether another thread has asked the search to stop.
fn stop_requested(flag: &AtomicBool) -> bool {
    flag.load(std::sync::atomic::Ordering::Relaxed)
}

/// Whether the hexadecimal notation of `digest` starts with one of `patterns`.
pub fn digest_matches(digest: &[u8], patterns: &Vec<Vec<char>>) -> (r: bool)
    ensures
        r == matches_any(char_views(patterns@), hex_lower(digest@)),
        r <==> exists|i: int|
            0 <= i < patterns@.len() && (#[trigger] patterns@[i])@.is_prefix_of(hex_lower(digest@)),
{
    let ghost ps = char_views(patterns@);
    let mut i: usize = 0;
    while i < patterns.len()
        invariant
            i <= patterns@.len(),
            ps == char_views(patterns@),
            forall|j: int| 0 <= j < i ==> !(#[trigger] ps[j]).is_prefix_of(hex_lower(digest@)),
        decreases patterns@.len() - i,
    {
        if hex_starts_with(digest, &patterns[i]) {
            assert(ps[i as int] == patterns@[i as int]@);
            return true;
        }
        assert(ps[i as int] == patterns@[i as int]@);
        i = i + 1;
    }
    assert(forall|i: int| 0 <= i < patterns@.len() ==> (#[trigger] patterns@[i])@ == ps[i]);
    false
}

/// The digest of the commit whose committer name is `name`, hashed from a
/// copy of `prefix` (the hasher fed with the text before the name), the
/// name and `suffix` (the text after it).
pub fn chain_digest(prefix: &Sha1Hasher, suffix: &Vec<u8>, name: &String) -> (r: Vec<u8>)
    ensures
        r@ == sha1_digest(hasher_input(*prefix) + encode_utf8(name@) + suffix@),
        r@.len() == 20,
{
    let mut h = hasher_clone(prefix);
    hasher_update(&mut h, name.as_str().as_bytes());
    hasher_update(&mut h, suffix.as_slice());
    hasher_finalize(h)
}

/// The name after `name` in a chain: the hexadecimal digest of what the
/// hasher `prefix` holds, the name, and `suffix`.
pub open spec fn step_hash(prefix: Sha1Hasher, suffix: Seq<u8>, name: Seq<char>) -> Seq<char> {
    hex_lower(sha1_digest(hasher_input(prefix) + encode_utf8(name) + suffix))
}

/// What one step of a search round does with the current name.
pub enum StepOutcome {
    /// A stop was requested; the name was not hashed.
    Stop,
    /// The next name starts with one of the patterns, so the current name is the answer.
    Hit,
    /// No pattern matched; the next name of the chain.
    Next(String),
}

/// One step of a search round, given whether a stop was requested: unless
/// asked to stop, hashes the commit with committer name `name` (from the
/// hasher `prefix`, the name and `suffix`) and tells whether that id starts
/// with one of `patterns`, or else gives it as the next name.
pub fn search_step(
    prefix: &Sha1Hasher,
    suffix: &Vec<u8>,
    name: &String,
    patterns: &Vec<Vec<char>>,
    stop: bool,
) -> (r: StepOutcome)
    ensures
        stop ==> r is Stop,
        !stop && matches_any(char_views(patterns@), step_hash(*prefix, suffix@, name@)) ==> r is Hit,
        !stop && !matches_any(char_views(patterns@), step_hash(*prefix, suffix@, name@)) ==> (
        r matches StepOutcome::Next(h) && h@ == step_hash(*prefix, suffix@, name@)),
        r matches StepOutcome::Next(h) ==> h@.len() == 40 && all_hex(h@),
{
    if stop {
        return StepOutcome::Stop;
    }
    let digest = chain_digest(prefix, suffix, name);
    proof {
        lemma_hex_lower_shape(digest@);
    }
    if digest_matches(digest.as_slice(), patterns) {
        StepOutcome::Hit
    } else {
        StepOutcome::Next(hex_string(digest.as_slice()))
    }
}

/// The characters of each pattern.
fn pattern_chars(patterns: &Vec<String>) -> (r: Vec<Vec<char>>)
    ensures
        char_views(r@) == string_views(patterns@),
{
    let mut r: Vec<Vec<char>> = Vec::new();
    let mut i: usize = 0;
    while i < patterns.len()
        invariant
            i <= patterns@.len(),
            char_views(r@) == string_views(patterns@).take(i as int),
        decreases patterns@.len() - i,
    {
        let ghost old_r = r@;
        r.push(chars_of(patterns[i].as_str()));
        assert(char_views(r@).len() == r@.len());
        assert(char_views(old_r).len() == old_r.len());
        assert(r@ == old_r.push(r@[i as int]));
        assert(char_views(r@) =~= string_views(patterns@).take(i + 1)) by {
            assert forall|j: int| 0 <= j < i + 1 implies #[trigger] char_views(r@)[j]
                == string_views(patterns@).take(i + 1)[j] by {
                if j < i {
                    assert(char_views(old_r)[j] == string_views(patterns@).take(
                        i as int,
                    )[j]);
                }
            }
        }
        i = i + 1;
    }
    assert(string_views(patterns@).take(i as int) =~= string_views(patterns@));
    r
}

/// How a round that read the stop flag with the values `reads`, in turn,
/// may end: each read but the last came back unset and the name hashed
/// after it did not match; the round ends with `Stopped` exactly when the
/// last read came back set, with `Found` when the last name hashed matched,
/// and with `Exhausted` only after `steps` names, none of which matched.
pub open spec fn observed_run(
    co: CommitView,
    start: Seq<char>,
    ps: Seq<Seq<char>>,
    steps: nat,
    reads: Seq<bool>,
    r: BlockOutcome,
) -> bool {
    let n = reads.len();
    &&& n <= steps
    &&& forall|j: int|
        0 <= j < n - 1 ==> !#[trigger] reads[j] && !matches_any(
            ps,
            next_hash(co, chain(co, start, j as nat)),
        )
    &&& match r {
        BlockOutcome::Stopped => n >= 1 && reads[n - 1],
        BlockOutcome::Found(h) => {
            &&& n >= 1
            &&& !reads[n - 1]
            &&& h@ == chain(co, start, (n - 1) as nat)
            &&& matches_any(ps, next_hash(co, h@))
        },
        BlockOutcome::Exhausted => {
            &&& n == steps
            &&& n >= 1 ==> !reads[n - 1] && !matches_any(
                ps,
                next_hash(co, chain(co, start, (n - 1) as nat)),
            )
        },
    }
}

/// One thread's round of the search, with the values that the stop flag was
/// read with, in turn (see `search_block`). The round reads the flag once
/// before each name it hashes, and stops only when a read comes back set:
/// with the flag never set it ends with the first match or runs through all
/// `2^block_size` names.
pub fn search_block_observed(
    co: &CommitObject,
    seed: usize,
    block_size: usize,
    patterns: &Vec<String>,
    found: &AtomicBool,
) -> (r: (BlockOutcome, Ghost<Seq<bool>>))
    requires
        utf8_len(co@.text()) + 64 <= usize::MAX,
        block_size < 64,
    ensures
        ({
            let start = seeded_start(co@, seed as nat);
            let ps = string_views(patterns@);
            let steps = (1u64 << block_size as u64) as nat;
            &&& observed_run(co@, start, ps, steps, r.1@, r.0)
            &&& match r.0 {
                BlockOutcome::Found(h) => {
                    &&& h@.len() == 40
                    &&& all_hex(h@)
                    &&& first_match_within(co@, start, ps, h@, steps)
                },
                BlockOutcome::Exhausted => forall|j: nat|
                    j < steps ==> !matches_any(ps, #[trigger] next_hash(co@, chain(co@, start, j))),
                BlockOutcome::Stopped => true,
            }
        }),
{
    let ghost c0 = co@;
    // the seeded commit and its id
    let mut seeded_name = co.committer.name.clone();
    push_decimal(&mut seeded_name, seed);
    let seeded = co.with_committer_name(seeded_name);
    proof {
        lemma_decimal_usize(seed);
        lemma_utf8_len_concat(c0.committer.name, decimal(seed as nat));
        lemma_rename_utf8_len(c0, c0.committer.name + decimal(seed as nat));
    }
    let mut hash = seeded.to_sha1();
    let ghost start = hash@;
    assert(start == seeded_start(c0, seed as nat));
    proof {
        lemma_hash_utf8_len(start);
        lemma_rename_utf8_len(c0, start);
    }
    // the frame around the committer name, hashed once
    let framed = co.with_committer_name(hash.clone());
    let prefix = framed.prefix_hasher();
    let suffix = framed.suffix_bytes();
    let pats = pattern_chars(patterns);
    let ghost ps = string_views(patterns@);
    let steps: u64 = 1u64 << block_size as u64;
    let mut i: u64 = 0;
    let ghost mut reads: Seq<bool> = Seq::empty();
    while i < steps
        invariant
            steps == (1u64 << block_size as u64),
            i <= steps,
            c0 == co@,
            start == seeded_start(c0, seed as nat),
            ps == string_views(patterns@),
            char_views(pats@) == ps,
            hash@ == chain(c0, start, i as nat),
            hash@.len() == 40,
            all_hex(hash@),
            utf8_len(framed@.committer.name) == 40,
            framed@ == c0.with_committer_name(start),
            hasher_input(prefix) == encode_utf8(prefix_text(framed@)),
            suffix@ == encode_utf8(suffix_text(framed@)),
            forall|j: nat| j < i ==> !matches_any(ps, #[trigger] next_hash(c0, chain(c0, start, j))),
            reads.len() == i,
            forall|j: int| 0 <= j < i ==> !#[trigger] reads[j],
        decreases steps - i,
    {
        proof {
            lemma_hash_utf8_len(hash@);
            lemma_midstate(framed@, hash@);
            assert(framed@.with_committer_name(hash@) =~= c0.with_committer_name(hash@));
            assert(step_hash(prefix, suffix@, hash@) == next_hash(c0, hash@));
        }
        let stop = stop_requested(found);
        let ghost before = reads;
        proof {
            reads = reads.push(stop);
            assert forall|j: int| 0 <= j < reads.len() - 1 implies !#[trigger] reads[j] && !matches_any(
                ps,
                next_hash(c0, chain(c0, start, j as nat)),
            ) by {
                assert(reads[j] == before[j]);
            }
        }
        match search_step(&prefix, &suffix, &hash, &pats, stop) {
            StepOutcome::Stop => {
                return (BlockOutcome::Stopped, Ghost(reads));
            },
            StepOutcome::Hit => {
                proof {
                    let k = i as nat;
                    assert(k < steps as nat);
                    assert(hash@ == chain(c0, start, k));
                    assert(matches_any(ps, next_hash(c0, hash@)));
                    assert(first_match_within(c0, start, ps, hash@, steps as nat));
                }
                return (BlockOutcome::Found(hash), Ghost(reads));
            },
            StepOutcome::Next(h) => {
                hash = h;
            },
        }
        assert(hash@ == chain(c0, start, (i + 1) as nat));
        i = i + 1;
    }
    proof {
        if i >= 1 {
            let k = (i - 1) as nat;
            assert(!matches_any(ps, next_hash(c0, chain(c0, start, k))));
        }
    }
    (BlockOutcome::Exhausted, Ghost(reads))
}


/// One thread's round of the search. The committer name gets the decimal
/// `seed` appended and the commit is hashed; from that hash on, each name
/// is replaced by the id of the commit that carries it, `2^block_size`
/// times at most. The first name whose commit id starts with one of
/// `patterns` is returned; `Stopped` when `found` is seen set first.
pub fn search_block(
    co: &CommitObject,
    seed: usize,
    block_size: usize,
    patterns: &Vec<String>,
    found: &AtomicBool,
) -> (r: BlockOutcome)
    requires
        utf8_len(co@.text()) + 64 <= usize::MAX,
        block_size < 64,
    ensures
        ({
            let start = seeded_start(co@, seed as nat);
            let ps = string_views(patterns@);
            let steps = (1u64 << block_size as u64) as nat;
            &&& exists|reads: Seq<bool>| observed_run(co@, start, ps, steps, reads, r)
            &&& match r {
                BlockOutcome::Found(h) => {
                    &&& h@.len() == 40
                    &&& all_hex(h@)
                    &&& first_match_within(co@, start, ps, h@, steps)
                },
                BlockOutcome::Exhausted => forall|j: nat|
                    j < steps ==> !matches_any(ps, #[trigger] next_hash(co@, chain(co@, start, j))),
                BlockOutcome::Stopped => true,
            }
        }),
{
    let (r, _reads) = search_block_observed(co, seed, block_size, patterns, found);
    r
}

} // verus!
