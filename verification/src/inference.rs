//! The inference side of the loop: the backend capability, the session
//! cache that lets a fixed prefix's expensive forward pass be skipped on a
//! later run, and the port that keeps the backend in lockstep with the
//! grammar engine.
//!
//! The backend itself (local weights, a remote service) is outside this
//! crate; it is reached through the `Llm` trait.  `ScriptedLlm` is an
//! in-crate backend that replays a fixed script of candidate sets, used to
//! drive the loop deterministically.

use crate::token::{Canidates, RankMode, TokenID};
use vstd::prelude::*;
use vstd::string::StringExecFns;

verus! {

// ---------------------------------------------------------------------------
// Prefix hashing
// ---------------------------------------------------------------------------
/// One round of the prefix hash: multiply-add followed by a shift-xor mix.
pub open spec fn hash_step(h: u64, val: u32) -> u64 {
    let a = vstd::wrapping::u64_specs::wrapping_add(
        vstd::wrapping::u64_specs::wrapping_mul(h, 33),
        val as u64,
    );
    a ^ vstd::wrapping::u64_specs::wrapping_add(a << 5, val as u64)
}

/// Deterministic, order-sensitive hash of a token sequence; the session
/// cache key.  Stable across runs: it depends on the tokens alone.
pub open spec fn token_hash(s: Seq<u32>) -> u64
    decreases s.len(),
{
    if s.len() == 0 {
        5381u64
    } else {
        hash_step(token_hash(s.drop_last()), s.last())
    }
}

pub open spec fn hex_digit_seq(d: int) -> Seq<char> {
    if d == 0 {
        "0"@
    } else if d == 1 {
        "1"@
    } else if d == 2 {
        "2"@
    } else if d == 3 {
        "3"@
    } else if d == 4 {
        "4"@
    } else if d == 5 {
        "5"@
    } else if d == 6 {
        "6"@
    } else if d == 7 {
        "7"@
    } else if d == 8 {
        "8"@
    } else if d == 9 {
        "9"@
    } else if d == 10 {
        "a"@
    } else if d == 11 {
        "b"@
    } else if d == 12 {
        "c"@
    } else if d == 13 {
        "d"@
    } else if d == 14 {
        "e"@
    } else {
        "f"@
    }
}

/// Lowercase hexadecimal digits of `h`, most significant first, empty for 0.
pub open spec fn hex_digits(h: u64) -> Seq<char>
    decreases h,
{
    if h == 0 {
        Seq::empty()
    } else {
        hex_digits(h / 16) + hex_digit_seq((h % 16) as int)
    }
}

/// Lowercase hexadecimal rendering of `h`, without leading zeros; "0" for 0.
pub open spec fn hex_of(h: u64) -> Seq<char> {
    if h == 0 {
        "0"@
    } else {
        hex_digits(h)
    }
}

fn hex_digit_str(d: u64) -> (r: &'static str)
    requires
        d < 16,
    ensures
        r@ == hex_digit_seq(d as int),
{
    match d {
        0 => "0",
        1 => "1",
        2 => "2",
        3 => "3",
        4 => "4",
        5 => "5",
        6 => "6",
        7 => "7",
        8 => "8",
        9 => "9",
        10 => "a",
        11 => "b",
        12 => "c",
        13 => "d",
        14 => "e",
        _ => "f",
    }
}

fn push_hex(h: u64, out: &mut String)
    ensures
        final(out)@ == old(out)@ + hex_digits(h),
    decreases h,
{
    if h == 0 {
        proof {
            assert(old(out)@ + hex_digits(0) =~= old(out)@);
        }
        return;
    }
    push_hex(h / 16, out);
    out.append(hex_digit_str(h % 16));
    proof {
        assert(old(out)@ + (hex_digits(h / 16) + hex_digit_seq((h % 16) as int)) =~= (old(out)@
            + hex_digits(h / 16)) + hex_digit_seq((h % 16) as int));
    }
}

/// Hash of a token prefix as exec code; agrees with `token_hash`.
pub fn hash_tokens(tokens: &[u32]) -> (r: u64)
    ensures
        r == token_hash(tokens@),
{
    let mut hash: u64 = 5381;
    let mut i: usize = 0;
    proof {
        assert(tokens@.take(0) =~= Seq::<u32>::empty());
    }
    while i < tokens.len()
        invariant
            i <= tokens@.len(),
            hash == token_hash(tokens@.take(i as int)),
        decreases tokens@.len() - i,
    {
        let val = tokens[i];
        hash = hash.wrapping_mul(33).wrapping_add(val as u64);
        hash = hash ^ (hash << 5u32).wrapping_add(val as u64);
        proof {
            assert(tokens@.take(i + 1).drop_last() =~= tokens@.take(i as int));
            assert(tokens@.take(i + 1).last() == tokens@[i as int]);
        }
        i = i + 1;
    }
    proof {
        assert(tokens@.take(tokens@.len() as int) =~= tokens@);
    }
    hash
}

/// Stable name for the on-disk blob of a token prefix: the lowercase hex
/// rendering of the prefix hash.
pub fn get_file_hash(tokens: &[u32]) -> (r: String)
    ensures
        r@ == hex_of(token_hash(tokens@)),
{
    let hash = hash_tokens(tokens);
    let mut out = String::new();
    if hash == 0 {
        out.append("0");
    } else {
        push_hex(hash, &mut out);
    }
    out
}

// ---------------------------------------------------------------------------
// Session cache
// ---------------------------------------------------------------------------
/// Precomputed inference state for one token prefix.  The prefix is stored
/// alongside the blob and is re-checked on every load: a cache entry is
/// never trusted blindly.
pub struct SessionCacheEntry {
    pub validated_prefix: Vec<u32>,
    pub serialized_inference_state: Vec<u8>,
}

pub open spec fn entry_view(e: SessionCacheEntry) -> (Seq<u32>, Seq<u8>) {
    (e.validated_prefix@, e.serialized_inference_state@)
}

/// Outcome of a cache probe that did not detect corruption.
pub enum CacheLookup {
    /// The prefix was found; `state` is the stored blob and `resume` the
    /// position (the prefix length) from which inference may continue.
    Hit { state: Vec<u8>, resume: usize },
    Miss,
}

/// A stored prefix did not match the probe that selected its key: the cache
/// is corrupt, which is fatal — the caller must abort rather than resume
/// from mismatched state.
#[derive(Clone, Copy, Debug, PartialEq, Eq, Structural)]
pub struct CacheCorrupt;

spec fn map_of(s: Seq<(u64, SessionCacheEntry)>) -> Map<u64, (Seq<u32>, Seq<u8>)>
    decreases s.len(),
{
    if s.len() == 0 {
        Map::empty()
    } else {
        map_of(s.drop_last()).insert(s.last().0, entry_view(s.last().1))
    }
}

spec fn unique_keys(s: Seq<(u64, SessionCacheEntry)>) -> bool {
    forall|i: int, j: int| 0 <= i < j < s.len() ==> (#[trigger] s[i]).0 != (#[trigger] s[j]).0
}

proof fn lemma_map_of_absent(s: Seq<(u64, SessionCacheEntry)>, k: u64)
    requires
        forall|i: int| 0 <= i < s.len() ==> (#[trigger] s[i]).0 != k,
    ensures
        !map_of(s).contains_key(k),
    decreases s.len(),
{
    if s.len() > 0 {
        lemma_map_of_absent(s.drop_last(), k);
    }
}

proof fn lemma_map_of_found(s: Seq<(u64, SessionCacheEntry)>, i: int)
    requires
        unique_keys(s),
        0 <= i < s.len(),
    ensures
        map_of(s).contains_key(s[i].0),
        map_of(s)[s[i].0] == entry_view(s[i].1),
    decreases s.len(),
{
    if i == s.len() - 1 {
    } else {
        lemma_map_of_found(s.drop_last(), i);
        assert(s.last().0 != s[i].0);
    }
}

proof fn lemma_map_of_remove(s: Seq<(u64, SessionCacheEntry)>, i: int)
    requires
        unique_keys(s),
        0 <= i < s.len(),
    ensures
        map_of(s.remove(i)) =~= map_of(s).remove(s[i].0),
    decreases s.len(),
{
    if i == s.len() - 1 {
        assert(s.remove(i) =~= s.drop_last());
        lemma_map_of_absent(s.drop_last(), s[i].0);
    } else {
        lemma_map_of_remove(s.drop_last(), i);
        assert(s.remove(i).drop_last() =~= s.drop_last().remove(i));
        assert(s.remove(i).last() == s.last());
    }
}

/// Content-addressed store of previously computed inference state, keyed by
/// the hash of the token prefix it was computed for.  Entries are never
/// invalidated; staleness and collisions are caught by the prefix-equality
/// check at load time.
pub struct SessionCache {
    entries: Vec<(u64, SessionCacheEntry)>,
}

impl View for SessionCache {
    type V = Map<u64, (Seq<u32>, Seq<u8>)>;

    closed spec fn view(&self) -> Map<u64, (Seq<u32>, Seq<u8>)> {
        map_of(self.entries@)
    }
}

impl SessionCache {
    /// Internal well-formedness: one entry per key.  Established by `new`
    /// and preserved by `save`.
    pub closed spec fn wf(&self) -> bool {
        unique_keys(self.entries@)
    }

    pub fn new() -> (r: SessionCache)
        ensures
            r@ == Map::<u64, (Seq<u32>, Seq<u8>)>::empty(),
            r.wf(),
    {
        SessionCache { entries: Vec::new() }
    }

    fn find_index(&self, key: u64) -> (r: Option<usize>)
        ensures
            match r {
                Some(i) => i < self.entries@.len() && self.entries@[i as int].0 == key,
                None => forall|i: int|
                    0 <= i < self.entries@.len() ==> (#[trigger] self.entries@[i]).0 != key,
            },
    {
        let mut i: usize = 0;
        while i < self.entries.len()
            invariant
                i <= self.entries@.len(),
                forall|j: int| 0 <= j < i ==> (#[trigger] self.entries@[j]).0 != key,
            decreases self.entries@.len() - i,
        {
            if self.entries[i].0 == key {
                return Some(i);
            }
            i = i + 1;
        }
        None
    }

    /// Probes the store for the exact prefix `tokens`.
    ///
    /// The three outcomes are exhaustive and mutually exclusive: a hit
    /// carries the stored state and the resume position `tokens.len()`, and
    /// happens exactly when the store holds this key with this very prefix;
    /// a miss exactly when the key is absent; corruption exactly when the
    /// key is present but the stored prefix differs (a probe that merely
    /// shares a proper prefix with a saved sequence can never be reported
    /// as a hit).
    pub fn try_load(&self, tokens: &[u32]) -> (r: Result<CacheLookup, CacheCorrupt>)
        requires
            self.wf(),
        ensures
            ({
                let key = token_hash(tokens@);
                match r {
                    Ok(CacheLookup::Hit { state, resume }) => self@.contains_key(key) && self@[key].0
                        == tokens@ && state@ == self@[key].1 && resume == tokens@.len(),
                    Ok(CacheLookup::Miss) => !self@.contains_key(key),
                    Err(CacheCorrupt) => self@.contains_key(key) && self@[key].0 != tokens@,
                }
            }),
    {
        let key = hash_tokens(tokens);
        match self.find_index(key) {
            None => {
                proof {
                    lemma_map_of_absent(self.entries@, key);
                }
                Ok(CacheLookup::Miss)
            },
            Some(i) => {
                proof {
                    lemma_map_of_found(self.entries@, i as int);
                }
                let entry = &self.entries[i].1;
                if eq_tokens(&entry.validated_prefix, tokens) {
                    let state = copy_vec(&entry.serialized_inference_state);
                    Ok(CacheLookup::Hit { state, resume: tokens.len() })
                } else {
                    Err(CacheCorrupt)
                }
            },
        }
    }

    /// Persists `state` for the prefix `tokens`; a later save under the same
    /// key wins (duplicate computation, not corruption).
    pub fn save(&mut self, tokens: &[u32], state: Vec<u8>)
        requires
            old(self).wf(),
        ensures
            final(self).wf(),
            final(self)@ == old(self)@.insert(token_hash(tokens@), (tokens@, state@)),
    {
        let key = hash_tokens(tokens);
        let ghost pre = self.entries@;
        if let Some(i) = self.find_index(key) {
            proof {
                lemma_map_of_remove(pre, i as int);
            }
            self.entries.remove(i);
            proof {
                assert forall|p: int, q: int|
                    0 <= p < q < self.entries@.len() implies (#[trigger] self.entries@[p]).0 != (
                #[trigger] self.entries@[q]).0 by {
                    let p0: int = if p < i as int { p } else { p + 1 };
                    let q0: int = if q < i as int { q } else { q + 1 };
                    assert(self.entries@[p] == pre[p0]);
                    assert(self.entries@[q] == pre[q0]);
                }
            }
        }
        let ghost mid = self.entries@;
        let prefix = slice_to_vec_u32(tokens);
        let entry = SessionCacheEntry { validated_prefix: prefix, serialized_inference_state: state };
        proof {
            assert forall|j: int| 0 <= j < mid.len() implies (#[trigger] mid[j]).0 != key by {
                if exists|i0: int| 0 <= i0 < pre.len() && pre[i0].0 == key {
                }
            }
        }
        self.entries.push((key, entry));
        proof {
            assert(self.entries@.drop_last() =~= mid);
            assert(map_of(self.entries@) =~= old(self)@.insert(token_hash(tokens@), (tokens@, state@)));
        }
    }
}

/// Law: after `save(tokens, state)`, the model maps the key of `tokens` to
/// exactly `(tokens, state)`, so by `try_load`'s contract a load of the same
/// `tokens` must report a hit with that state and resume position
/// `tokens.len()` — it can neither miss nor report corruption.
pub proof fn lemma_save_then_load(
    m: Map<u64, (Seq<u32>, Seq<u8>)>,
    tokens: Seq<u32>,
    state: Seq<u8>,
)
    ensures
        m.insert(token_hash(tokens), (tokens, state)).contains_key(token_hash(tokens)),
        m.insert(token_hash(tokens), (tokens, state))[token_hash(tokens)] == (tokens, state),
{
}

/// Law: after `save(tokens, state)`, probing a different sequence can never
/// look like a valid hit for it.  If the probe's key collides with the saved
/// key, the stored prefix differs from the probe, which `try_load` reports
/// as corruption; if the keys differ and the probe's key was absent before,
/// it is still absent, which `try_load` reports as a miss.
pub proof fn lemma_no_silent_divergent_hit(
    m: Map<u64, (Seq<u32>, Seq<u8>)>,
    tokens: Seq<u32>,
    state: Seq<u8>,
    probe: Seq<u32>,
)
    requires
        probe != tokens,
    ensures
        token_hash(probe) == token_hash(tokens) ==> m.insert(
            token_hash(tokens),
            (tokens, state),
        )[token_hash(probe)].0 != probe,
        token_hash(probe) != token_hash(tokens) && !m.contains_key(token_hash(probe))
            ==> !m.insert(token_hash(tokens), (tokens, state)).contains_key(token_hash(probe)),
{
}

fn eq_tokens(a: &Vec<u32>, b: &[u32]) -> (r: bool)
    ensures
        r == (a@ == b@),
{
    if a.len() != b.len() {
        return false;
    }
    let mut i: usize = 0;
    while i < a.len()
        invariant
            a@.len() == b@.len(),
            i <= a@.len(),
            forall|j: int| 0 <= j < i ==> a@[j] == b@[j],
        decreases a@.len() - i,
    {
        if a[i] != b[i] {
            return false;
        }
        i = i + 1;
    }
    proof {
        assert(a@ =~= b@);
    }
    true
}

pub(crate) fn copy_vec<T: Copy>(v: &Vec<T>) -> (r: Vec<T>)
    ensures
        r@ == v@,
{
    let mut r: Vec<T> = Vec::new();
    let mut i: usize = 0;
    while i < v.len()
        invariant
            i <= v@.len(),
            r@ == v@.take(i as int),
        decreases v@.len() - i,
    {
        r.push(v[i]);
        proof {
            assert(v@.take(i + 1) =~= v@.take(i as int).push(v@[i as int]));
        }
        i = i + 1;
    }
    proof {
        assert(v@.take(v@.len() as int) =~= v@);
    }
    r
}

fn slice_to_vec_u32(s: &[u32]) -> (r: Vec<u32>)
    ensures
        r@ == s@,
{
    let mut r: Vec<u32> = Vec::new();
    let mut i: usize = 0;
    while i < s.len()
        invariant
            i <= s@.len(),
            r@ == s@.take(i as int),
        decreases s@.len() - i,
    {
        r.push(s[i]);
        proof {
            assert(s@.take(i + 1) =~= s@.take(i as int).push(s@[i as int]));
        }
        i = i + 1;
    }
    proof {
        assert(s@.take(s@.len() as int) =~= s@);
    }
    r
}

// ---------------------------------------------------------------------------
// Backend capability and the inference port
// ---------------------------------------------------------------------------
/// The language-model capability the loop is written against: any backend
/// (local weights, a remote service) that can absorb committed tokens and
/// produce the next-token distribution can drive the loop.
pub trait Llm {
    /// Returns the distribution over the vocabulary for the next token,
    /// given all previously fed tokens, ranked by probability.
    fn get_canidates(&mut self) -> (r: Canidates)
        ensures
            r.wf(),
            r.ranking() == RankMode::ByProbability,
    ;

    /// Incorporates `tokens` into the backend state.  An error is a
    /// backend-internal failure and is fatal to the conversation.
    fn feed_tokens(&mut self, tokens: &[u32]) -> (r: Result<(), String>);
}

/// Wraps a backend and records, as ghost state, exactly which tokens have
/// been fed in which order; the engine's contracts about lockstep feeding
/// are stated over this log.
pub struct InferencePort<L: Llm> {
    backend: L,
    fed: Ghost<Seq<u32>>,
}

impl<L: Llm> InferencePort<L> {
    /// All tokens ever fed to the backend, in order.
    pub closed spec fn fed_log(&self) -> Seq<u32> {
        self.fed@
    }

    pub fn new(backend: L) -> (r: InferencePort<L>)
        ensures
            r.fed_log() == Seq::<u32>::empty(),
    {
        InferencePort { backend, fed: Ghost(Seq::empty()) }
    }

    /// Feeds `tokens` to the backend; on success the log is extended by
    /// exactly those tokens, in order.  On failure the log is unchanged and
    /// the conversation must not continue.
    pub fn feed_tokens(&mut self, tokens: &[u32]) -> (r: Result<(), String>)
        ensures
            r is Ok ==> final(self).fed_log() == old(self).fed_log() + tokens@,
            r is Err ==> final(self).fed_log() == old(self).fed_log(),
    {
        let res = self.backend.feed_tokens(tokens);
        match res {
            Ok(()) => {
                proof {
                    self.fed@ = self.fed@ + tokens@;
                }
                Ok(())
            },
            Err(e) => Err(e),
        }
    }

    /// Asks the backend for the next-token distribution; feeds nothing.
    pub fn get_canidates(&mut self) -> (r: Canidates)
        ensures
            r.wf(),
            r.ranking() == RankMode::ByProbability,
            final(self).fed_log() == old(self).fed_log(),
    {
        self.backend.get_canidates()
    }
}

/// What to do about a fixed prefix, given the cache probe's outcome: resume
/// where the cached state left off, or feed the whole prefix and save the
/// resulting state for the next run.
#[derive(Clone, Copy, Debug, PartialEq, Eq, Structural)]
pub struct PrefixPlan {
    pub resume_position: usize,
    pub feed_needed: bool,
    pub save_needed: bool,
}

/// Decision rule for reusing cached inference state: a hit resumes at the
/// stored position with nothing to feed or save; a miss starts at 0, feeds
/// the full prefix, and saves the state afterwards.
pub fn plan_prefix_feed(lookup: &CacheLookup) -> (r: PrefixPlan)
    ensures
        match lookup {
            CacheLookup::Hit { state, resume } => r == (PrefixPlan {
                resume_position: *resume,
                feed_needed: false,
                save_needed: false,
            }),
            CacheLookup::Miss => r == (PrefixPlan {
                resume_position: 0,
                feed_needed: true,
                save_needed: true,
            }),
        },
{
    match lookup {
        CacheLookup::Hit { state: _, resume } => PrefixPlan {
            resume_position: *resume,
            feed_needed: false,
            save_needed: false,
        },
        CacheLookup::Miss => PrefixPlan { resume_position: 0, feed_needed: true, save_needed: true },
    }
}

// ---------------------------------------------------------------------------
// Scripted backend
// ---------------------------------------------------------------------------
/// A deterministic in-crate backend: replays a fixed script of candidate
/// sets and accepts any fed tokens.  Used to drive the conversation loop
/// without an external model.
pub struct ScriptedLlm {
    script: Vec<Canidates>,
    next: usize,
}

impl ScriptedLlm {
    #[verifier::type_invariant]
    spec fn inv(&self) -> bool {
        forall|i: int|
            0 <= i < self.script@.len() ==> (#[trigger] self.script@[i]).wf()
                && self.script@[i].ranking() == RankMode::ByProbability
    }

    /// The steps are served front to back; each must be a well-formed,
    /// probability-ranked candidate set.
    pub fn new(script: Vec<Canidates>) -> (r: ScriptedLlm)
        requires
            forall|i: int|
                0 <= i < script@.len() ==> (#[trigger] script@[i]).wf() && script@[i].ranking()
                    == RankMode::ByProbability,
    {
        ScriptedLlm { script, next: 0 }
    }
}

impl Llm for ScriptedLlm {
    /// Serves the next scripted step, or an empty distribution once the
    /// script is exhausted.
    fn get_canidates(&mut self) -> (r: Canidates) {
        proof {
            use_type_invariant(&*self);
        }
        if self.next < self.script.len() {
            let c = self.script[self.next].duplicate();
            self.next = self.next + 1;
            c
        } else {
            Canidates::new(Vec::new())
        }
    }

    fn feed_tokens(&mut self, tokens: &[u32]) -> (r: Result<(), String>) {
        Ok(())
    }
}

} // verus!
