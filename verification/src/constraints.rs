//! Adapter over the external grammar engine.
//!
//! The grammar engine compiles a formal grammar into an incremental parser
//! and is consumed as a black box through four operations: prompt
//! processing, mask computation, token commit and forced-token injection.
//! This module declares the engine's types to the verifier, wraps each
//! operation in a trusted item whose contract states only what the engine's
//! source shows, and exposes a verified `ConstraintAdapter` that records —
//! as ghost state — exactly which commits and forced tokens were driven
//! into the engine, in order.  The conversation engine's lockstep
//! obligations are stated over those logs.

use crate::token::{Mask, TokenID};
use vstd::prelude::*;

verus! {

#[verifier::external_type_specification]
#[verifier::external_body]
pub struct ExConstraint(llguidance::Constraint);

#[verifier::external_type_specification]
#[verifier::external_body]
pub struct ExSimpleVob(llguidance::toktrie::SimpleVob);

/// Whether the engine has begun parsing (its prompt was processed or a mask
/// was computed).  The engine object refuses a second prompt once started.
pub uninterp spec fn constraint_started(c: llguidance::Constraint) -> bool;

/// The set of tokens a mask bit-vector allows.
pub uninterp spec fn vob_contents(v: llguidance::toktrie::SimpleVob) -> Set<u32>;

/// The size of a mask bit-vector: the vocabulary it is dense over.
pub uninterp spec fn vob_size(v: llguidance::toktrie::SimpleVob) -> nat;

/// Relies on SimpleVob::len: returns the bit-vector's size in bits.
#[verifier::external_body]
fn vob_len(v: &llguidance::toktrie::SimpleVob) -> (r: usize)
    ensures
        r == vob_size(*v),
{
    v.len()
}

/// Relies on SimpleVob::is_allowed: tests the token's bit.  Tokens at or
/// beyond the size are excluded so the lookup cannot reach past the vector.
#[verifier::external_body]
fn vob_is_allowed(v: &llguidance::toktrie::SimpleVob, t: u32) -> (r: bool)
    requires
        (t as nat) < vob_size(*v),
    ensures
        r == vob_contents(*v).contains(t),
{
    v.is_allowed(t)
}

/// Relies on Constraint::process_prompt: starts the engine on the prompt
/// and returns the prompt with any grammar-forced tokens added.  The engine
/// asserts it was not started before, so that input is excluded here.
#[verifier::external_body]
fn raw_process_prompt(c: &mut llguidance::Constraint, prompt: Vec<u32>) -> (r: Vec<u32>)
    requires
        !constraint_started(*old(c)),
    ensures
        constraint_started(*final(c)),
{
    c.process_prompt(prompt)
}

/// Relies on Constraint::compute_mask: computes the allow-mask for the next
/// sampling step, or returns no mask when the parser has nothing to sample
/// (it has reached a stop or a forced condition); errors are returned, not
/// thrown, and internal panics are caught by the engine itself.  Computing
/// a mask starts the engine if the prompt step was skipped.
#[verifier::external_body]
fn raw_compute_mask(c: &mut llguidance::Constraint) -> (r: Result<
    Option<llguidance::toktrie::SimpleVob>,
    String,
>)
    ensures
        constraint_started(*final(c)),
{
    match c.compute_mask() {
        Ok(res) => Ok(res.sample_mask.clone()),
        Err(e) => Err(e.to_string()),
    }
}

/// Relies on Constraint::commit_token: advances the parser by the sampled
/// token (or by its own default step if none), returning the stop flag and
/// any fast-forward tokens the grammar deduces; does not change whether the
/// engine is started.
#[verifier::external_body]
fn raw_commit_token(c: &mut llguidance::Constraint, sampled: Option<u32>) -> (r: Result<
    (Vec<u32>, bool),
    String,
>)
    ensures
        constraint_started(*final(c)) == constraint_started(*old(c)),
{
    match c.commit_token(sampled) {
        Ok(res) => Ok((res.ff_tokens, res.stop)),
        Err(e) => Err(e.to_string()),
    }
}

/// Relies on Constraint::force_tokens: walks the parser forward over
/// externally sourced tokens without masking; does not change whether the
/// engine is started.
#[verifier::external_body]
fn raw_force_tokens(c: &mut llguidance::Constraint, tokens: &[u32]) -> (r: Result<(), String>)
    ensures
        constraint_started(*final(c)) == constraint_started(*old(c)),
{
    match c.force_tokens(tokens) {
        Ok(()) => Ok(()),
        Err(e) => Err(e.to_string()),
    }
}

/// Result of committing one token to the grammar engine.
///
/// `fast_forward_tokens` is non-empty when the grammar deduces subsequent
/// tokens deterministically; its first entry stands for the token just
/// committed, and only the remainder must additionally be committed.
/// `stop` means the grammar reached an accepting state with nothing further
/// required.
#[derive(Clone, Debug, PartialEq, Eq)]
pub struct CommitResult {
    pub fast_forward_tokens: Vec<TokenID>,
    pub stop: bool,
}

/// Converts an engine mask into the crate's dense boolean mask.
///
/// Bit `t` of the result answers whether the engine allows token `t`; the
/// mask covers the vector's size (capped at the token range), and anything
/// beyond is disallowed.
fn mask_from_vob(v: &llguidance::toktrie::SimpleVob) -> (m: Mask)
    ensures
        m@.len() == if vob_size(*v) <= u32::MAX as nat {
            vob_size(*v)
        } else {
            u32::MAX as nat
        },
        forall|t: int| 0 <= t < m@.len() ==> m@[t] == vob_contents(*v).contains(t as u32),
{
    let len = vob_len(v);
    let n: usize = if len <= u32::MAX as usize {
        len
    } else {
        u32::MAX as usize
    };
    let mut flags: Vec<bool> = Vec::new();
    let mut i: usize = 0;
    while i < n
        invariant
            n <= vob_size(*v),
            n <= u32::MAX as usize,
            i <= n,
            flags@.len() == i,
            forall|t: int| 0 <= t < i ==> flags@[t] == vob_contents(*v).contains(t as u32),
        decreases n - i,
    {
        flags.push(vob_is_allowed(v, i as u32));
        i = i + 1;
    }
    Mask::from_flags(flags)
}

/// Thin, verified pass-through to the external grammar engine.
///
/// Ghost state records the exact order of operations driven into the
/// engine: `commit_log` is the sequence of `commit_token` calls (the token,
/// or none for the engine's default step) and `forced_log` the tokens
/// injected without masking.  The engine object itself is opaque; the
/// adapter guarantees only how it is driven, never what the grammar
/// decides.
pub struct ConstraintAdapter {
    inner: llguidance::Constraint,
    started: bool,
    commits: Ghost<Seq<Option<TokenID>>>,
    forced: Ghost<Seq<TokenID>>,
}

impl ConstraintAdapter {
    /// Every `commit_token` call made through this adapter, in order.
    pub closed spec fn commit_log(&self) -> Seq<Option<TokenID>> {
        self.commits@
    }

    /// Every token injected through `force_tokens`, in order.
    pub closed spec fn forced_log(&self) -> Seq<TokenID> {
        self.forced@
    }

    /// Whether the engine has begun parsing.
    pub closed spec fn spec_started(&self) -> bool {
        self.started
    }

    /// The adapter's record of being started agrees with the engine's.
    pub closed spec fn wf(&self) -> bool {
        self.started == constraint_started(self.inner)
    }

    /// Takes ownership of a freshly constructed engine object.  The caller
    /// must hand over an engine that has not parsed anything yet.
    pub fn attach(inner: llguidance::Constraint) -> (r: ConstraintAdapter)
        requires
            !constraint_started(inner),
        ensures
            r.wf(),
            !r.spec_started(),
            r.commit_log() == Seq::<Option<TokenID>>::empty(),
            r.forced_log() == Seq::<TokenID>::empty(),
    {
        ConstraintAdapter {
            inner,
            started: false,
            commits: Ghost(Seq::empty()),
            forced: Ghost(Seq::empty()),
        }
    }

    /// Called once at conversation start: hands the existing tokens to the
    /// engine and returns them with any tokens the grammar injects before
    /// generation can begin (possibly none).
    pub fn process_prompt(&mut self, prompt: Vec<TokenID>) -> (r: Vec<TokenID>)
        requires
            old(self).wf(),
            !old(self).spec_started(),
        ensures
            final(self).wf(),
            final(self).spec_started(),
            final(self).commit_log() == old(self).commit_log(),
            final(self).forced_log() == old(self).forced_log(),
    {
        let r = raw_process_prompt(&mut self.inner, prompt);
        self.started = true;
        r
    }

    /// Asks the engine for the next sampling step's allow-mask.
    ///
    /// `Ok(None)` means the parser has no pending choice at this position —
    /// nothing is to be sampled and the caller must drive the engine's own
    /// default step instead of choosing a token.  An error is fatal to the
    /// conversation.
    pub fn compute_mask(&mut self) -> (r: Result<Option<Mask>, String>)
        requires
            old(self).wf(),
        ensures
            final(self).wf(),
            final(self).spec_started(),
            final(self).commit_log() == old(self).commit_log(),
            final(self).forced_log() == old(self).forced_log(),
    {
        let res = raw_compute_mask(&mut self.inner);
        self.started = true;
        match res {
            Ok(Some(vob)) => Ok(Some(mask_from_vob(&vob))),
            Ok(None) => Ok(None),
            Err(e) => Err(e),
        }
    }

    /// Advances the engine by one token (or by its default step for
    /// `None`); must be called for every token actually emitted, in
    /// emission order.  On success the commit log is extended by exactly
    /// this call; on error the logs are unchanged and the conversation must
    /// not continue.
    pub fn commit_token(&mut self, sampled: Option<TokenID>) -> (r: Result<CommitResult, String>)
        requires
            old(self).wf(),
        ensures
            final(self).wf(),
            final(self).spec_started() == old(self).spec_started(),
            final(self).forced_log() == old(self).forced_log(),
            r is Ok ==> final(self).commit_log() == old(self).commit_log().push(sampled),
            r is Err ==> final(self).commit_log() == old(self).commit_log(),
    {
        match raw_commit_token(&mut self.inner, sampled) {
            Ok((ff, stop)) => {
                proof {
                    self.commits@ = self.commits@.push(sampled);
                }
                Ok(CommitResult { fast_forward_tokens: ff, stop })
            },
            Err(e) => Err(e),
        }
    }

    /// Injects externally sourced tokens (a human turn's literal input)
    /// into the parser without masking.  On success the forced log is
    /// extended by exactly those tokens, in order.
    pub fn force_tokens(&mut self, tokens: &[TokenID]) -> (r: Result<(), String>)
        requires
            old(self).wf(),
        ensures
            final(self).wf(),
            final(self).spec_started() == old(self).spec_started(),
            final(self).commit_log() == old(self).commit_log(),
            r is Ok ==> final(self).forced_log() == old(self).forced_log() + tokens@,
            r is Err ==> final(self).forced_log() == old(self).forced_log(),
    {
        match raw_force_tokens(&mut self.inner, tokens) {
            Ok(()) => {
                proof {
                    self.forced@ = self.forced@ + tokens@;
                }
                Ok(())
            },
            Err(e) => Err(e),
        }
    }
}

} // verus!
