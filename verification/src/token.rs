//! Ranked candidate sets for one decoding step, and the per-step allow-mask.
//!
//! A `Canidates` value is the ranked, mutable view over the vocabulary
//! distribution for one decoding step.  Scores are fixed-point integers: the
//! probability of an entry is the fraction `probability / total()`, so the
//! set is renormalised by recomputing the denominator rather than by
//! dividing each entry.  After construction and after `constrain` the masses
//! sum exactly to the denominator, which is the integer form of "the
//! probabilities sum to 1"; an empty survivor set has denominator 0 and is
//! observably distinct.

use vstd::multiset::Multiset;
use vstd::prelude::*;

verus! {

broadcast use vstd::seq_lib::group_to_multiset_ensures;

/// Identifier of a vocabulary entry.
pub type TokenID = u32;

/// One vocabulary entry's score at a decoding step.
///
/// `probability` is a non-negative fixed-point mass, `logit` a fixed-point
/// raw score; the scale is chosen by the backend that produced them and is
/// irrelevant to ranking.
#[derive(Clone, Copy, Debug, PartialEq, Eq, Structural)]
pub struct Canidate {
    pub token_id: TokenID,
    pub probability: u64,
    pub logit: i64,
}

/// The ranking key a `Canidates` value is currently sorted by.
///
/// Two ranking modes exist because call sites differ: probability ranking is
/// the default after construction, logit ranking is used where the raw score
/// must decide (greedy selection).  A call site states which one it wants.
#[derive(Clone, Copy, Debug, PartialEq, Eq, Structural)]
pub enum RankMode {
    ByProbability,
    ByLogit,
}

/// `a` ranks at least as high as `b` under `mode`.
pub open spec fn key_ge(mode: RankMode, a: Canidate, b: Canidate) -> bool {
    match mode {
        RankMode::ByProbability => a.probability >= b.probability,
        RankMode::ByLogit => a.logit >= b.logit,
    }
}

/// Descending order under `mode`.
pub open spec fn sorted_by(mode: RankMode, s: Seq<Canidate>) -> bool {
    forall|i: int, j: int| 0 <= i < j < s.len() ==> key_ge(mode, s[i], s[j])
}

/// Total probability mass of a sequence of candidates.
pub open spec fn sum_mass(s: Seq<Canidate>) -> int
    decreases s.len(),
{
    if s.len() == 0 {
        0
    } else {
        sum_mass(s.drop_last()) + s.last().probability
    }
}

pub proof fn lemma_sum_mass_nonneg(s: Seq<Canidate>)
    ensures
        sum_mass(s) >= 0,
    decreases s.len(),
{
    if s.len() > 0 {
        lemma_sum_mass_nonneg(s.drop_last());
    }
}

pub proof fn lemma_sum_mass_push(s: Seq<Canidate>, c: Canidate)
    ensures
        sum_mass(s.push(c)) == sum_mass(s) + c.probability,
{
    assert(s.push(c).drop_last() =~= s);
}

pub proof fn lemma_sum_mass_concat(a: Seq<Canidate>, b: Seq<Canidate>)
    ensures
        sum_mass(a + b) == sum_mass(a) + sum_mass(b),
    decreases b.len(),
{
    if b.len() == 0 {
        assert(a + b =~= a);
    } else {
        lemma_sum_mass_concat(a, b.drop_last());
        assert((a + b).drop_last() =~= a + b.drop_last());
    }
}

pub proof fn lemma_sum_mass_take_one(s: Seq<Canidate>, i: int)
    requires
        0 <= i < s.len(),
    ensures
        sum_mass(s.take(i + 1)) == sum_mass(s.take(i)) + s[i].probability,
{
    assert(s.take(i + 1) =~= s.take(i).push(s[i]));
    lemma_sum_mass_push(s.take(i), s[i]);
}

pub proof fn lemma_sum_mass_take_le(s: Seq<Canidate>, i: int)
    requires
        0 <= i <= s.len(),
    ensures
        sum_mass(s.take(i)) <= sum_mass(s),
{
    assert(s =~= s.take(i) + s.skip(i));
    lemma_sum_mass_concat(s.take(i), s.skip(i));
    lemma_sum_mass_nonneg(s.skip(i));
}

pub proof fn lemma_sum_mass_remove(s: Seq<Canidate>, i: int)
    requires
        0 <= i < s.len(),
    ensures
        sum_mass(s.remove(i)) == sum_mass(s) - s[i].probability,
{
    assert(s =~= s.take(i) + seq![s[i]] + s.skip(i + 1));
    assert(s.remove(i) =~= s.take(i) + s.skip(i + 1));
    lemma_sum_mass_concat(s.take(i) + seq![s[i]], s.skip(i + 1));
    lemma_sum_mass_concat(s.take(i), seq![s[i]]);
    lemma_sum_mass_concat(s.take(i), s.skip(i + 1));
    assert(sum_mass(seq![s[i]]) == s[i].probability) by {
        let single = seq![s[i]];
        assert(single.len() == 1);
        assert(single.last() == s[i]);
        assert(single.drop_last() =~= Seq::<Canidate>::empty());
        assert(sum_mass(single.drop_last()) == 0);
    }
}

/// Removing an element keeps a sequence sorted.
pub proof fn lemma_sorted_remove(mode: RankMode, s: Seq<Canidate>, i: int)
    requires
        sorted_by(mode, s),
        0 <= i < s.len(),
    ensures
        sorted_by(mode, s.remove(i)),
{
    let r = s.remove(i);
    assert forall|p: int, q: int| 0 <= p < q < r.len() implies key_ge(mode, r[p], r[q]) by {
        let p0: int = if p < i { p } else { p + 1 };
        let q0: int = if q < i { q } else { q + 1 };
        assert(r[p] == s[p0]);
        assert(r[q] == s[q0]);
    }
}

/// The prefix of a ranked sequence is ranked: what `top_n` returns is in the
/// order that was last applied, each entry's key at least the next one's.
pub proof fn lemma_sorted_prefix(mode: RankMode, s: Seq<Canidate>, k: int)
    requires
        sorted_by(mode, s),
        0 <= k <= s.len(),
    ensures
        sorted_by(mode, s.take(k)),
{
}

/// Per-step allow-mask over the vocabulary, produced by the grammar engine:
/// a dense boolean vector indexed by token, answering "is this token allowed
/// at this step".  Tokens beyond the vector are disallowed.
pub struct Mask {
    allowed: Vec<bool>,
}

impl View for Mask {
    type V = Seq<bool>;

    closed spec fn view(&self) -> Seq<bool> {
        self.allowed@
    }
}

impl Mask {
    pub open spec fn spec_allows(&self, t: TokenID) -> bool {
        (t as int) < self@.len() && self@[t as int]
    }

    pub fn from_flags(allowed: Vec<bool>) -> (r: Mask)
        ensures
            r@ == allowed@,
    {
        Mask { allowed }
    }

    pub fn allows(&self, t: TokenID) -> (r: bool)
        ensures
            r == self.spec_allows(t),
    {
        (t as usize) < self.allowed.len() && self.allowed[t as usize]
    }

    pub fn vocab_len(&self) -> (r: usize)
        ensures
            r == self@.len(),
    {
        self.allowed.len()
    }
}

/// Ranked candidate set for one decoding step.
///
/// Invariant (`wf`): the entries are sorted descending by the current
/// ranking key, and `total()` equals the sum of the entries' masses, so each
/// entry's probability is `probability / total()` and the probabilities sum
/// exactly to 1 whenever the set is non-empty.
pub struct Canidates {
    canidates: Vec<Canidate>,
    total_mass: u64,
    rank: RankMode,
}

impl View for Canidates {
    type V = Seq<Canidate>;

    closed spec fn view(&self) -> Seq<Canidate> {
        self.canidates@
    }
}

impl Canidates {
    /// Denominator of the entries' probabilities.
    pub closed spec fn total(&self) -> u64 {
        self.total_mass
    }

    /// The ranking key last applied.
    pub closed spec fn ranking(&self) -> RankMode {
        self.rank
    }

    pub open spec fn wf(&self) -> bool {
        &&& self.total() == sum_mass(self@)
        &&& sorted_by(self.ranking(), self@)
    }

    /// Builds the set from an unordered sequence of candidates, sorted
    /// descending by probability (the default ranking).
    pub fn new(canidates: Vec<Canidate>) -> (r: Canidates)
        requires
            sum_mass(canidates@) <= u64::MAX,
        ensures
            r.wf(),
            r.ranking() == RankMode::ByProbability,
            r@.to_multiset() == canidates@.to_multiset(),
            sorted_by(RankMode::ByProbability, canidates@) ==> r@ == canidates@,
    {
        let total = total_of(&canidates);
        let mut v = canidates;
        sort_desc(&mut v, RankMode::ByProbability);
        Canidates { canidates: v, total_mass: total, rank: RankMode::ByProbability }
    }

    pub fn len(&self) -> (r: usize)
        ensures
            r == self@.len(),
    {
        self.canidates.len()
    }

    /// An empty set is the observable degenerate state: its denominator is 0
    /// and no entry can be chosen from it.
    pub fn is_empty(&self) -> (r: bool)
        ensures
            r == (self@.len() == 0),
    {
        self.canidates.len() == 0
    }

    /// Re-sorts descending by raw logit; for call sites that must rank on
    /// the raw score rather than the (possibly renormalised) probability.
    ///
    /// The last clause is idempotence: a sequence already in logit order is
    /// returned unchanged, so a second call right after a first one leaves
    /// the order exactly as the first call did.
    pub fn rank_by_logit(&mut self)
        requires
            old(self).wf(),
        ensures
            final(self).wf(),
            final(self).ranking() == RankMode::ByLogit,
            final(self).total() == old(self).total(),
            final(self)@.to_multiset() == old(self)@.to_multiset(),
            sorted_by(RankMode::ByLogit, old(self)@) ==> final(self)@ == old(self)@,
    {
        sort_desc(&mut self.canidates, RankMode::ByLogit);
        self.rank = RankMode::ByLogit;
    }

    /// Re-sorts descending by probability; the counterpart of
    /// `rank_by_logit`, with the same idempotence guarantee.
    pub fn rank_by_probability(&mut self)
        requires
            old(self).wf(),
        ensures
            final(self).wf(),
            final(self).ranking() == RankMode::ByProbability,
            final(self).total() == old(self).total(),
            final(self)@.to_multiset() == old(self)@.to_multiset(),
            sorted_by(RankMode::ByProbability, old(self)@) ==> final(self)@ == old(self)@,
    {
        sort_desc(&mut self.canidates, RankMode::ByProbability);
        self.rank = RankMode::ByProbability;
    }

    /// Removes every candidate whose token the mask disallows, then
    /// renormalises over the survivors: the new denominator is the sum of
    /// the surviving masses (filter-then-renormalise, the strict policy).
    ///
    /// Every surviving entry's token is allowed by the mask, and the
    /// surviving masses sum exactly to the new denominator, so the
    /// probabilities sum to 1 unless the survivor set is empty.  An empty
    /// survivor set leaves denominator 0 — no division happens anywhere, so
    /// the degenerate case cannot corrupt the scores and is detected with
    /// `is_empty`.
    pub fn constrain(&mut self, mask: &Mask)
        requires
            old(self).wf(),
        ensures
            final(self).wf(),
            final(self).ranking() == old(self).ranking(),
            final(self)@ == old(self)@.filter(|c: Canidate| mask.spec_allows(c.token_id)),
            forall|i: int|
                0 <= i < final(self)@.len() ==> mask.spec_allows(#[trigger] final(self)@[i].token_id),
            final(self).total() == sum_mass(final(self)@),
            final(self).total() <= old(self).total(),
    {
        let ghost orig = self.canidates@;
        let ghost pred = |c: Canidate| mask.spec_allows(c.token_id);
        let mut kept: Vec<Canidate> = Vec::new();
        let mut kept_mass: u64 = 0;
        let n = self.canidates.len();
        let mut i: usize = 0;
        proof {
            assert(orig.take(0) =~= Seq::<Canidate>::empty());
            reveal(Seq::filter);
        }
        while i < n
            invariant
                n == orig.len(),
                i <= n,
                self.canidates@ == orig,
                sum_mass(orig) == old(self).total(),
                sorted_by(old(self).ranking(), orig),
                kept@ == orig.take(i as int).filter(pred),
                kept_mass == sum_mass(kept@),
                pred == (|c: Canidate| mask.spec_allows(c.token_id)),
                sorted_by(old(self).ranking(), kept@ + orig.skip(i as int)),
            decreases n - i,
        {
            let c = self.canidates[i];
            let ghost prev_kept = kept@;
            proof {
                reveal(Seq::filter);
                assert(orig.take(i + 1).drop_last() =~= orig.take(i as int));
                assert(orig.take(i + 1).last() == orig[i as int]);
            }
            if mask.allows(c.token_id) {
                proof {
                    lemma_sum_mass_push(kept@, c);
                    lemma_sum_mass_take_le(orig.take(i + 1), i as int);
                    // mass of what is kept stays within the starting total
                    assert(kept@ =~= orig.take(i + 1).take(i as int).filter(pred));
                    lemma_sum_filter_le(orig.take(i + 1), pred);
                    assert(sum_mass(kept@.push(c)) == sum_mass(orig.take(i + 1).filter(pred)));
                    lemma_sum_mass_take_le(orig, i + 1);
                    lemma_sum_mass_nonneg(kept@);
                }
                kept.push(c);
                kept_mass = kept_mass + c.probability;
                proof {
                    assert(kept@ + orig.skip(i + 1) =~= prev_kept + orig.skip(i as int));
                }
            } else {
                proof {
                    let whole = prev_kept + orig.skip(i as int);
                    assert(whole[prev_kept.len() as int] == c);
                    lemma_sorted_remove(old(self).ranking(), whole, prev_kept.len() as int);
                    assert(whole.remove(prev_kept.len() as int) =~= prev_kept + orig.skip(i + 1));
                }
            }
            i = i + 1;
        }
        proof {
            assert(orig.take(n as int) =~= orig);
            assert(orig.skip(n as int) =~= Seq::<Canidate>::empty());
            assert(kept@ + orig.skip(n as int) =~= kept@);
            lemma_sum_filter_le(orig, pred);
            lemma_sum_mass_nonneg(kept@);
        }
        self.canidates = kept;
        self.total_mass = kept_mass;
    }

    /// The denominator of the entries' probabilities: the sum of the
    /// masses.  Zero exactly when renormalisation had no survivors to
    /// distribute over.
    pub fn total_mass(&self) -> (r: u64)
        ensures
            r == self.total(),
    {
        self.total_mass
    }

    /// An owned copy: same entries, same denominator, same ranking.
    pub fn duplicate(&self) -> (r: Canidates)
        ensures
            r@ == self@,
            r.total() == self.total(),
            r.ranking() == self.ranking(),
    {
        let mut list: Vec<Canidate> = Vec::new();
        let mut i: usize = 0;
        while i < self.canidates.len()
            invariant
                i <= self.canidates@.len(),
                list@ == self.canidates@.take(i as int),
            decreases self.canidates@.len() - i,
        {
            list.push(self.canidates[i]);
            proof {
                assert(self.canidates@.take(i + 1) =~= self.canidates@.take(i as int).push(
                    self.canidates@[i as int],
                ));
            }
            i = i + 1;
        }
        proof {
            assert(self.canidates@.take(self.canidates@.len() as int) =~= self.canidates@);
        }
        Canidates { canidates: list, total_mass: self.total_mass, rank: self.rank }
    }

    /// Returns the first `min(n, len)` entries in the current ranking
    /// order, without mutating the set: each entry's key is at least the
    /// next one's under the ranking mode last applied.
    pub fn top_n(&self, n: usize) -> (r: Vec<Canidate>)
        ensures
            r@ == self@.take(if n <= self@.len() { n as int } else { self@.len() as int }),
            r@.len() == vstd::math::min(n as int, self@.len() as int),
            self.wf() ==> sorted_by(self.ranking(), r@),
    {
        proof {
            if self.wf() {
                let k: int = if n <= self@.len() { n as int } else { self@.len() as int };
                lemma_sorted_prefix(self.ranking(), self@, k);
            }
        }
        let count = if n <= self.canidates.len() {
            n
        } else {
            self.canidates.len()
        };
        let mut r: Vec<Canidate> = Vec::new();
        let mut i: usize = 0;
        while i < count
            invariant
                count <= self.canidates.len(),
                i <= count,
                r@ == self.canidates@.take(i as int),
            decreases count - i,
        {
            r.push(self.canidates[i]);
            proof {
                assert(self.canidates@.take(i + 1) =~= self.canidates@.take(i as int).push(
                    self.canidates@[i as int],
                ));
            }
            i = i + 1;
        }
        r
    }
}

/// Law: in a well-formed set the masses sum exactly to the denominator, so
/// the probabilities `probability / total()` sum exactly to 1 whenever the
/// set is non-empty; the empty set has denominator 0 and no probabilities
/// at all — renormalisation can never divide by zero or leave a partial
/// distribution.
pub proof fn lemma_probabilities_sum_to_total(c: &Canidates)
    requires
        c.wf(),
    ensures
        sum_mass(c@) == c.total(),
        c@.len() == 0 ==> c.total() == 0,
{
}

/// Sum of the masses a mask lets through never exceeds the whole.
proof fn lemma_sum_filter_le(s: Seq<Canidate>, pred: spec_fn(Canidate) -> bool)
    ensures
        sum_mass(s.filter(pred)) <= sum_mass(s),
    decreases s.len(),
{
    reveal(Seq::filter);
    if s.len() > 0 {
        lemma_sum_filter_le(s.drop_last(), pred);
        if pred(s.last()) {
            lemma_sum_mass_push(s.drop_last().filter(pred), s.last());
        }
    }
}

/// Sums the masses; the caller guarantees the sum fits.
fn total_of(v: &Vec<Canidate>) -> (r: u64)
    requires
        sum_mass(v@) <= u64::MAX,
    ensures
        r == sum_mass(v@),
{
    let mut total: u64 = 0;
    let mut i: usize = 0;
    proof {
        assert(v@.take(0) =~= Seq::<Canidate>::empty());
    }
    while i < v.len()
        invariant
            i <= v@.len(),
            total == sum_mass(v@.take(i as int)),
            sum_mass(v@) <= u64::MAX,
        decreases v@.len() - i,
    {
        proof {
            lemma_sum_mass_take_one(v@, i as int);
            lemma_sum_mass_take_le(v@, i + 1);
            lemma_sum_mass_nonneg(v@.take(i as int));
        }
        total = total + v[i].probability;
        i = i + 1;
    }
    proof {
        assert(v@.take(v@.len() as int) =~= v@);
    }
    total
}

fn key_ge_exec(mode: RankMode, a: &Canidate, b: &Canidate) -> (r: bool)
    ensures
        r == key_ge(mode, *a, *b),
{
    match mode {
        RankMode::ByProbability => a.probability >= b.probability,
        RankMode::ByLogit => a.logit >= b.logit,
    }
}

fn is_sorted(v: &Vec<Canidate>, mode: RankMode) -> (r: bool)
    ensures
        r == sorted_by(mode, v@),
{
    let mut i: usize = 1;
    while i < v.len()
        invariant
            1 <= i,
            forall|j: int| 0 < j < i && j < v@.len() ==> key_ge(mode, v@[j - 1], #[trigger] v@[j]),
        decreases v@.len() - i,
    {
        if !key_ge_exec(mode, &v[i - 1], &v[i]) {
            assert(!sorted_by(mode, v@)) by {
                let a: Canidate = v@[i - 1];
                let b: Canidate = v@[i as int];
                match mode {
                    RankMode::ByProbability => {
                        assert(!key_ge(mode, a, b));
                    },
                    RankMode::ByLogit => {
                        assert(!key_ge(mode, a, b));
                    },
                }
            }
            return false;
        }
        i = i + 1;
    }
    proof {
        lemma_adjacent_sorted(mode, v@);
    }
    true
}

proof fn lemma_key_ge_trans(mode: RankMode, a: Canidate, b: Canidate, c: Canidate)
    requires
        key_ge(mode, a, b),
        key_ge(mode, b, c),
    ensures
        key_ge(mode, a, c),
{
}

proof fn lemma_chain(mode: RankMode, s: Seq<Canidate>, i: int, j: int)
    requires
        forall|k: int| 0 < k < s.len() ==> key_ge(mode, s[k - 1], #[trigger] s[k]),
        0 <= i < j < s.len(),
    ensures
        key_ge(mode, s[i], s[j]),
    decreases j - i,
{
    if i + 1 < j {
        lemma_chain(mode, s, i + 1, j);
        lemma_key_ge_trans(mode, s[i], s[i + 1], s[j]);
    }
}

proof fn lemma_adjacent_sorted(mode: RankMode, s: Seq<Canidate>)
    requires
        forall|k: int| 0 < k < s.len() ==> key_ge(mode, s[k - 1], #[trigger] s[k]),
    ensures
        sorted_by(mode, s),
{
    assert forall|i: int, j: int| 0 <= i < j < s.len() implies key_ge(mode, s[i], s[j]) by {
        lemma_chain(mode, s, i, j);
    }
}

/// Selection sort, descending under `mode`; deterministic (the first
/// highest-ranked entry is taken at each step), and the identity on input
/// that is already sorted.
fn sort_desc(v: &mut Vec<Canidate>, mode: RankMode)
    ensures
        sorted_by(mode, final(v)@),
        final(v)@.to_multiset() == old(v)@.to_multiset(),
        sum_mass(final(v)@) == sum_mass(old(v)@),
        sorted_by(mode, old(v)@) ==> final(v)@ == old(v)@,
{
    if is_sorted(v, mode) {
        return;
    }
    let ghost orig = v@;
    let mut out: Vec<Canidate> = Vec::new();
    while v.len() > 0
        invariant
            sorted_by(mode, out@),
            out@.to_multiset().add(v@.to_multiset()) == orig.to_multiset(),
            sum_mass(out@) + sum_mass(v@) == sum_mass(orig),
            forall|p: int, q: int|
                0 <= p < out@.len() && 0 <= q < v@.len() ==> key_ge(
                    mode,
                    #[trigger] out@[p],
                    #[trigger] v@[q],
                ),
        decreases v@.len(),
    {
        let mut m: usize = 0;
        let mut k: usize = 1;
        while k < v.len()
            invariant
                m < v@.len(),
                k <= v@.len(),
                v@.len() > 0,
                forall|q: int| 0 <= q < k ==> key_ge(mode, v@[m as int], #[trigger] v@[q]),
            decreases v@.len() - k,
        {
            if !key_ge_exec(mode, &v[m], &v[k]) {
                m = k;
            }
            k = k + 1;
        }
        let ghost before = v@;
        let ghost prev_out = out@;
        let x = v.remove(m);
        out.push(x);
        proof {
            assert(before.remove(m as int).to_multiset() =~= before.to_multiset().remove(x));
            assert(prev_out.push(x).to_multiset() =~= prev_out.to_multiset().insert(x));
            assert(out@.to_multiset().add(v@.to_multiset()) =~= orig.to_multiset());
            lemma_sum_mass_remove(before, m as int);
            lemma_sum_mass_push(prev_out, x);
            assert forall|p: int, q: int|
                0 <= p < out@.len() && 0 <= q < v@.len() implies key_ge(
                mode,
                out@[p],
                v@[q],
            ) by {
                let q0: int = if q < m as int { q } else { q + 1 };
                assert(v@[q] == before[q0]);
                if p < prev_out.len() {
                    assert(key_ge(mode, out@[p], x));
                    lemma_key_ge_trans(mode, out@[p], x, v@[q]);
                } else {
                    assert(out@[p] == x);
                }
            }
        }
    }
    proof {
        assert(v@.to_multiset() =~= Multiset::<Canidate>::empty());
        assert(out@.to_multiset().add(v@.to_multiset()) =~= out@.to_multiset());
    }
    *v = out;
}

} // verus!
