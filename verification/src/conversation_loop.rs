//! The conversation engine: turn-taking between a human participant and the
//! grammar-constrained generator.
//!
//! Each assistant step runs a strict synchronous sequence — rank, mask,
//! constrain, choose, commit, feed, append — and the engine's contracts pin
//! the lockstep obligations exactly: which commits were driven into the
//! grammar engine, which tokens were fed to the backend, and what was
//! appended to the transcript, all in order.  The grammar engine and the
//! backend must be driven in strict alternation matching the token-commit
//! order; the ghost logs make that order part of every contract.

use crate::constraints::ConstraintAdapter;
use crate::grammar::GrammarFlow;
use crate::inference::{InferencePort, Llm};
use crate::token::{sorted_by, Canidate, Canidates, Mask, RankMode, TokenID};
use crate::tokenizer::Tokenizer;
use vstd::prelude::*;
use vstd::string::StringExecFns;

verus! {

/// The two conversation states; either may start a conversation.
#[derive(Clone, Copy, Debug, PartialEq, Eq, Structural)]
pub enum Turn {
    Human,
    Assistant,
}

impl Turn {
    /// The single transition: each completed turn hands over to the other
    /// participant.
    pub open spec fn spec_next(self) -> Turn {
        match self {
            Turn::Human => Turn::Assistant,
            Turn::Assistant => Turn::Human,
        }
    }

    pub fn next(self) -> (r: Turn)
        ensures
            r == self.spec_next(),
    {
        match self {
            Turn::Human => Turn::Assistant,
            Turn::Assistant => Turn::Human,
        }
    }
}

/// The stage at which a fatal error occurred; the conversation must not be
/// stepped further once one is reported.
#[derive(Clone, Copy, Debug, PartialEq, Eq, Structural)]
pub enum FailStage {
    /// Retrieval through the `Llm` capability cannot fail for the backends
    /// in this crate; the stage exists for callers whose backends report
    /// retrieval failures of their own.
    CandidateRetrieval,
    Masking,
    DegenerateMask,
    Commit,
    Feed,
}

/// A fatal conversation error: the stage that failed and the underlying
/// message.  The transcript accumulated so far stays available for
/// diagnostics.
#[derive(Clone, Debug, PartialEq, Eq)]
pub struct EngineError {
    pub stage: FailStage,
    pub message: String,
}

/// Conversation state owned exclusively by the engine: the transcript, the
/// current turn, and a monotonic count of tokens fed to the backend (it
/// saturates at the type's maximum, which is unreachable in practice).
pub struct ConversationState {
    pub transcript: String,
    pub turn: Turn,
    pub token_position: u64,
}

/// What the engine needs to run a conversation.
pub struct ConversationInfo<L: Llm, T: Tokenizer> {
    pub tokenizer: T,
    pub llm: L,
    pub grammar_flow: GrammarFlow,
    pub constraint: ConstraintAdapter,
    /// Which participant opens the conversation.
    pub starting_turn: Turn,
    /// Turn-boundary token committed and fed after each human turn, where
    /// the grammar requires an explicit end-of-turn marker; grammar
    /// specific, hence configurable.
    pub end_turn_token: Option<TokenID>,
}

/// The tokens emitted by one assistant step: the fast-forward sequence if
/// the grammar produced one (its first entry stands for the committed
/// token), else the chosen token alone, else nothing.
pub open spec fn emitted_of(chosen: Option<TokenID>, ff: Seq<TokenID>) -> Seq<TokenID> {
    if ff.len() == 0 {
        match chosen {
            Option::Some(t) => seq![t],
            Option::None => Seq::empty(),
        }
    } else {
        ff
    }
}

/// The commits one assistant step drives into the grammar engine: the
/// chosen token (or the default step), then every fast-forward token after
/// the first, in order.
pub open spec fn commits_of(chosen: Option<TokenID>, ff: Seq<TokenID>) -> Seq<Option<TokenID>> {
    seq![chosen] + (if ff.len() <= 1 {
        Seq::empty()
    } else {
        ff.skip(1).map_values(|t: TokenID| Option::Some(t))
    })
}

/// Everything one assistant step decided and did, for the caller to
/// display or act on.
pub struct StepReport {
    /// Highest-ranked candidates before masking, by raw logit.
    pub premask_top: Vec<Canidate>,
    /// Highest-ranked surviving candidates after masking, by raw logit.
    pub masked_top: Vec<Canidate>,
    /// The step's allow-mask; absent when the grammar had nothing to
    /// sample.
    pub mask: Option<Mask>,
    /// The greedily chosen token; absent exactly when `mask` is absent.
    pub chosen: Option<TokenID>,
    /// The grammar's fast-forward result for the retained commit.
    pub fast_forward: Vec<TokenID>,
    /// The tokens fed to the backend and appended to the transcript.
    pub fed: Vec<TokenID>,
    /// The retained stop flag: the grammar reached an accepting state.
    pub stop: bool,
    /// The constrained, logit-ranked survivor set the choice was made
    /// from.
    pub survivors: Ghost<Seq<Canidate>>,
}

proof fn lemma_prefix_self(s: Seq<char>)
    ensures
        s.is_prefix_of(s),
{
    assert(s =~= s.subrange(0, s.len() as int));
}

proof fn lemma_prefix_extend(a: Seq<char>, b: Seq<char>)
    ensures
        a.is_prefix_of(a + b),
{
    assert(a =~= (a + b).subrange(0, a.len() as int));
}

proof fn lemma_prefix_trans(a: Seq<char>, b: Seq<char>, c: Seq<char>)
    requires
        a.is_prefix_of(b),
        b.is_prefix_of(c),
    ensures
        a.is_prefix_of(c),
{
    assert(a =~= c.subrange(0, a.len() as int));
}

/// Drives one conversation: owns the transcript and the turn state, and
/// keeps the inference backend and the grammar engine in lockstep.
pub struct ConversationData<L: Llm, T: Tokenizer> {
    tokenizer: T,
    llm: InferencePort<L>,
    pub grammar_flow: GrammarFlow,
    constraint: ConstraintAdapter,
    state: ConversationState,
    end_turn_token: Option<TokenID>,
    steps: Ghost<nat>,
}

impl<L: Llm, T: Tokenizer> ConversationData<L, T> {
    /// The tokenizer the engine renders and reads text with.
    pub closed spec fn tok(&self) -> T {
        self.tokenizer
    }

    pub closed spec fn transcript(&self) -> Seq<char> {
        self.state.transcript@
    }

    pub closed spec fn turn(&self) -> Turn {
        self.state.turn
    }

    pub closed spec fn position(&self) -> u64 {
        self.state.token_position
    }

    /// Completed assistant steps.
    pub closed spec fn steps(&self) -> nat {
        self.steps@
    }

    pub closed spec fn commit_log(&self) -> Seq<Option<TokenID>> {
        self.constraint.commit_log()
    }

    pub closed spec fn forced_log(&self) -> Seq<TokenID> {
        self.constraint.forced_log()
    }

    pub closed spec fn fed_log(&self) -> Seq<TokenID> {
        self.llm.fed_log()
    }

    pub closed spec fn spec_started(&self) -> bool {
        self.constraint.spec_started()
    }

    pub closed spec fn end_turn_cfg(&self) -> Option<TokenID> {
        self.end_turn_token
    }

    /// The grammar flow this conversation was configured with.
    pub closed spec fn flow(&self) -> GrammarFlow {
        self.grammar_flow
    }

    pub closed spec fn wf(&self) -> bool {
        self.constraint.wf()
    }

    pub fn new(info: ConversationInfo<L, T>) -> (r: ConversationData<L, T>)
        requires
            info.constraint.wf(),
        ensures
            r.wf(),
            r.tok() == info.tokenizer,
            r.turn() == info.starting_turn,
            r.end_turn_cfg() == info.end_turn_token,
            r.transcript() == Seq::<char>::empty(),
            r.position() == 0,
            r.steps() == 0,
            r.flow() == info.grammar_flow,
            r.commit_log() == info.constraint.commit_log(),
            r.forced_log() == info.constraint.forced_log(),
            r.spec_started() == info.constraint.spec_started(),
            r.fed_log() == Seq::<TokenID>::empty(),
    {
        ConversationData {
            tokenizer: info.tokenizer,
            llm: InferencePort::new(info.llm),
            grammar_flow: info.grammar_flow,
            constraint: info.constraint,
            state: ConversationState {
                transcript: String::new(),
                turn: info.starting_turn,
                token_position: 0,
            },
            end_turn_token: info.end_turn_token,
            steps: Ghost(0),
        }
    }

    /// The transcript accumulated so far; preserved for diagnostics even
    /// after a fatal error.
    pub fn transcript_string(&self) -> (r: String)
        ensures
            r@ == self.transcript(),
    {
        self.state.transcript.clone()
    }

    pub fn current_turn(&self) -> (r: Turn)
        ensures
            r == self.turn(),
    {
        self.state.turn
    }

    pub fn token_position(&self) -> (r: u64)
        ensures
            r == self.position(),
    {
        self.state.token_position
    }

    /// Called once at conversation start: lets the grammar engine process
    /// the (empty) prompt, feeds any tokens it injects into the backend,
    /// and appends their text to the transcript.
    pub fn begin_conversation(&mut self) -> (r: Result<Vec<TokenID>, EngineError>)
        requires
            old(self).wf(),
            !old(self).spec_started(),
        ensures
            final(self).wf(),
            final(self).tok() == old(self).tok(),
            final(self).turn() == old(self).turn(),
            final(self).end_turn_cfg() == old(self).end_turn_cfg(),
            final(self).steps() == old(self).steps(),
            final(self).commit_log() == old(self).commit_log(),
            final(self).forced_log() == old(self).forced_log(),
            final(self).spec_started(),
            match r {
                Ok(toks) => {
                    &&& final(self).fed_log() == old(self).fed_log() + toks@
                    &&& final(self).transcript() == old(self).transcript() + old(self).tok()
                        .spec_decode(toks@)
                },
                Err(_) => final(self).fed_log() == old(self).fed_log() && final(self).transcript()
                    == old(self).transcript(),
            },
    {
        let toks = self.constraint.process_prompt(Vec::new());
        match self.llm.feed_tokens(toks.as_slice()) {
            Ok(()) => {},
            Err(e) => {
                return Err(EngineError { stage: FailStage::Feed, message: e });
            },
        }
        let text = self.tokenizer.tokens_to_string(toks.as_slice());
        self.state.transcript.append(text.as_str());
        self.state.token_position = self.state.token_position.saturating_add(
            toks.len() as u64,
        );
        Ok(toks)
    }

    /// One human turn: tokenize the free-form input, inject it into the
    /// grammar engine without masking, feed it to the backend, append it to
    /// the transcript, inject and feed the configured turn-boundary token
    /// if there is one, and hand the turn to the assistant.
    ///
    /// The boundary token, like the input, is externally sourced rather
    /// than model-generated, so it advances the parser through the same
    /// unmasked injection; the sampled-commit entry point is reserved for
    /// the assistant's steps.
    pub fn human_turn(&mut self, input: &str) -> (r: Result<(), EngineError>)
        requires
            old(self).wf(),
            old(self).turn() == Turn::Human,
        ensures
            final(self).wf(),
            final(self).tok() == old(self).tok(),
            final(self).end_turn_cfg() == old(self).end_turn_cfg(),
            final(self).steps() == old(self).steps(),
            old(self).transcript().is_prefix_of(final(self).transcript()),
            match r {
                Ok(()) => {
                    let toks = old(self).tok().spec_tokenize(input@);
                    let boundary: Seq<TokenID> = match old(self).end_turn_cfg() {
                        Option::Some(t) => seq![t],
                        Option::None => Seq::empty(),
                    };
                    &&& final(self).turn() == Turn::Assistant
                    &&& final(self).forced_log() == old(self).forced_log() + toks + boundary
                    &&& final(self).commit_log() == old(self).commit_log()
                    &&& final(self).fed_log() == old(self).fed_log() + toks + boundary
                    &&& final(self).transcript() == old(self).transcript() + old(self).tok()
                        .spec_decode(toks) + (match old(self).end_turn_cfg() {
                        Option::Some(t) => old(self).tok().spec_decode(seq![t]),
                        Option::None => Seq::<char>::empty(),
                    })
                },
                Err(_) => true,
            },
    {
        let toks = self.tokenizer.tokenize(input);
        match self.constraint.force_tokens(toks.as_slice()) {
            Ok(()) => {},
            Err(e) => {
                proof {
                    lemma_prefix_self(self.state.transcript@);
                }
                return Err(EngineError { stage: FailStage::Commit, message: e });
            },
        }
        match self.llm.feed_tokens(toks.as_slice()) {
            Ok(()) => {},
            Err(e) => {
                proof {
                    lemma_prefix_self(self.state.transcript@);
                }
                return Err(EngineError { stage: FailStage::Feed, message: e });
            },
        }
        let text = self.tokenizer.tokens_to_string(toks.as_slice());
        self.state.transcript.append(text.as_str());
        proof {
            lemma_prefix_extend(old(self).transcript(), text@);
        }
        self.state.token_position = self.state.token_position.saturating_add(
            toks.len() as u64,
        );
        let ghost boundary: Seq<TokenID> = match self.end_turn_token {
            Option::Some(t) => seq![t],
            Option::None => Seq::empty(),
        };
        match self.end_turn_token {
            Some(t) => {
                let one: Vec<TokenID> = vec![t];
                proof {
                    assert(one@ =~= boundary);
                }
                match self.constraint.force_tokens(one.as_slice()) {
                    Ok(()) => {},
                    Err(e) => {
                        return Err(EngineError { stage: FailStage::Commit, message: e });
                    },
                }
                match self.llm.feed_tokens(one.as_slice()) {
                    Ok(()) => {},
                    Err(e) => {
                        return Err(EngineError { stage: FailStage::Feed, message: e });
                    },
                }
                let ghost mid = self.state.transcript@;
                let text2 = self.tokenizer.tokens_to_string(one.as_slice());
                self.state.transcript.append(text2.as_str());
                proof {
                    lemma_prefix_extend(mid, text2@);
                    lemma_prefix_trans(old(self).transcript(), mid, self.state.transcript@);
                }
                self.state.token_position = self.state.token_position.saturating_add(1);
            },
            None => {
                proof {
                    assert(self.constraint.forced_log() + boundary
                        =~= self.constraint.forced_log());
                    assert(self.llm.fed_log() + boundary =~= self.llm.fed_log());
                    assert(self.state.transcript@ + Seq::<char>::empty() =~= self.state.transcript@);
                }
            },
        }
        self.state.turn = Turn::Assistant;
        Ok(())
    }

    /// One assistant step: rank, mask, constrain, choose greedily, commit
    /// (with every fast-forward token after the first), feed, append.
    ///
    /// On success the ghost logs are extended by exactly the step's
    /// commits and emitted tokens: the grammar engine received the chosen
    /// token (or its default step) followed by each fast-forward token
    /// after the first, in order, and the backend and transcript received
    /// exactly the emitted tokens.  The chosen token, when there is one, is
    /// the top-ranked survivor by raw logit of the mask-constrained
    /// candidate set, and every survivor is allowed by the step's mask.  A
    /// mask that lets no candidate through is reported as the distinct
    /// degenerate-mask failure, before anything is committed or fed.
    pub fn commit_inference(&mut self, top_candidate_count: usize) -> (r: Result<
        StepReport,
        EngineError,
    >)
        requires
            old(self).wf(),
            old(self).turn() == Turn::Assistant,
        ensures
            final(self).wf(),
            final(self).tok() == old(self).tok(),
            final(self).turn() == old(self).turn(),
            final(self).end_turn_cfg() == old(self).end_turn_cfg(),
            final(self).forced_log() == old(self).forced_log(),
            final(self).spec_started(),
            match r {
                Ok(rep) => {
                    &&& final(self).steps() == old(self).steps() + 1
                    &&& final(self).commit_log() == old(self).commit_log() + commits_of(
                        rep.chosen,
                        rep.fast_forward@,
                    )
                    &&& rep.fed@ == emitted_of(rep.chosen, rep.fast_forward@)
                    &&& final(self).fed_log() == old(self).fed_log() + rep.fed@
                    &&& final(self).transcript() == old(self).transcript() + old(self).tok()
                        .spec_decode(rep.fed@)
                    &&& (rep.chosen is Some <==> rep.mask is Some)
                    &&& sorted_by(RankMode::ByLogit, rep.premask_top@)
                    &&& match rep.mask {
                        Option::Some(m) => {
                            &&& rep.survivors@.len() > 0
                            &&& rep.chosen == Option::Some(rep.survivors@[0].token_id)
                            &&& sorted_by(RankMode::ByLogit, rep.survivors@)
                            &&& forall|i: int|
                                0 <= i < rep.survivors@.len() ==> m.spec_allows(
                                    (#[trigger] rep.survivors@[i]).token_id,
                                )
                            &&& rep.masked_top@ == rep.survivors@.take(
                                if top_candidate_count <= rep.survivors@.len() {
                                    top_candidate_count as int
                                } else {
                                    rep.survivors@.len() as int
                                },
                            )
                        },
                        Option::None => rep.masked_top@.len() == 0,
                    }
                },
                Err(e) => {
                    &&& final(self).steps() == old(self).steps()
                    &&& final(self).transcript() == old(self).transcript()
                    &&& (e.stage == FailStage::DegenerateMask ==> {
                        &&& final(self).commit_log() == old(self).commit_log()
                        &&& final(self).fed_log() == old(self).fed_log()
                    })
                },
            },
    {
        let mut canidates = self.llm.get_canidates();
        canidates.rank_by_logit();
        let premask_top = canidates.top_n(top_candidate_count);
        let mask_opt = match self.constraint.compute_mask() {
            Ok(m) => m,
            Err(e) => {
                return Err(EngineError { stage: FailStage::Masking, message: e });
            },
        };
        let chosen: Option<TokenID>;
        let masked_top: Vec<Canidate>;
        let mask: Option<Mask>;
        let ghost mut survivors: Seq<Canidate> = Seq::empty();
        match mask_opt {
            None => {
                chosen = None;
                masked_top = Vec::new();
                mask = None;
            },
            Some(m) => {
                canidates.constrain(&m);
                if canidates.is_empty() {
                    return Err(
                        EngineError {
                            stage: FailStage::DegenerateMask,
                            message: String::from_str("the mask allowed no candidate"),
                        },
                    );
                }
                let best = canidates.top_n(1);
                chosen = Some(best[0].token_id);
                masked_top = canidates.top_n(top_candidate_count);
                proof {
                    survivors = canidates@;
                    assert(canidates@.take(1)[0] == canidates@[0]);
                }
                mask = Some(m);
            },
        }
        let first = match self.constraint.commit_token(chosen) {
            Ok(cr) => cr,
            Err(e) => {
                return Err(EngineError { stage: FailStage::Commit, message: e });
            },
        };
        let ff = first.fast_forward_tokens;
        let mut stop = first.stop;
        let ghost mid_log = self.constraint.commit_log();
        let mut i: usize = 1;
        while i < ff.len()
            invariant
                old(self).wf(),
                self.constraint.wf(),
                1 <= i,
                ff@.len() == 0 ==> self.constraint.commit_log() == mid_log,
                ff@.len() >= 1 ==> i <= ff@.len() && self.constraint.commit_log() == mid_log
                    + ff@.subrange(1, i as int).map_values(|t0: TokenID| Option::Some(t0)),
                self.constraint.forced_log() == old(self).forced_log(),
                self.constraint.spec_started(),
                self.llm.fed_log() == old(self).fed_log(),
                self.state == old(self).state,
                self.tokenizer == old(self).tokenizer,
                self.end_turn_token == old(self).end_turn_token,
                self.steps@ == old(self).steps(),
            decreases ff@.len() - i,
        {
            let t = ff[i];
            match self.constraint.commit_token(Some(t)) {
                Ok(cr) => {
                    stop = cr.stop;
                },
                Err(e) => {
                    return Err(EngineError { stage: FailStage::Commit, message: e });
                },
            }
            proof {
                assert(ff@.subrange(1, i + 1) =~= ff@.subrange(1, i as int).push(ff@[i as int]));
                assert(ff@.subrange(1, i as int).map_values(|t0: TokenID| Option::Some(t0)).push(
                    Option::Some(t),
                ) =~= ff@.subrange(1, i + 1).map_values(|t0: TokenID| Option::Some(t0)));
            }
            i = i + 1;
        }
        proof {
            if ff@.len() <= 1 {
                assert(mid_log =~= old(self).commit_log() + seq![chosen]);
                if ff@.len() == 1 {
                    assert(ff@.subrange(1, 1) =~= Seq::<TokenID>::empty());
                    assert(ff@.subrange(1, 1).map_values(|t0: TokenID| Option::Some(t0))
                        =~= Seq::<Option<TokenID>>::empty());
                    assert(self.constraint.commit_log() =~= mid_log);
                }
                assert(self.constraint.commit_log() =~= old(self).commit_log() + commits_of(
                    chosen,
                    ff@,
                ));
            } else {
                assert(ff@.subrange(1, ff@.len() as int) =~= ff@.skip(1));
                assert(self.constraint.commit_log() =~= old(self).commit_log() + commits_of(
                    chosen,
                    ff@,
                ));
            }
        }
        let to_feed: Vec<TokenID> = if ff.len() == 0 {
            match chosen {
                Some(t) => vec![t],
                None => Vec::new(),
            }
        } else {
            crate::inference::copy_vec(&ff)
        };
        proof {
            assert(to_feed@ =~= emitted_of(chosen, ff@));
        }
        match self.llm.feed_tokens(to_feed.as_slice()) {
            Ok(()) => {},
            Err(e) => {
                return Err(EngineError { stage: FailStage::Feed, message: e });
            },
        }
        let text = self.tokenizer.tokens_to_string(to_feed.as_slice());
        self.state.transcript.append(text.as_str());
        self.state.token_position = self.state.token_position.saturating_add(
            to_feed.len() as u64,
        );
        proof {
            self.steps@ = self.steps@ + 1;
        }
        Ok(
            StepReport {
                premask_top,
                masked_top,
                mask,
                chosen,
                fast_forward: ff,
                fed: to_feed,
                stop,
                survivors: Ghost(survivors),
            },
        )
    }

    /// Runs the conversation from its start: the grammar's prompt step, one
    /// human turn with `user_input`, then up to `max_tokens` assistant
    /// steps, stopping early when the grammar reports completion.  Returns
    /// whether the grammar completed.
    ///
    /// The step bound is hard: when `max_tokens` is 1 the loop performs
    /// exactly one assistant step, whatever the stop flag said.
    pub fn simple_hitl_generation(
        &mut self,
        user_input: &str,
        max_tokens: usize,
        top_candidate_count: usize,
    ) -> (r: Result<bool, EngineError>)
        requires
            old(self).wf(),
            !old(self).spec_started(),
            old(self).turn() == Turn::Human,
        ensures
            final(self).wf(),
            final(self).tok() == old(self).tok(),
            old(self).transcript().is_prefix_of(final(self).transcript()),
            r is Ok ==> final(self).steps() <= old(self).steps() + max_tokens,
            (r is Ok && max_tokens >= 1) ==> final(self).steps() >= old(self).steps() + 1,
    {
        let ghost start_transcript = old(self).transcript();
        match self.begin_conversation() {
            Ok(_) => {
                proof {
                    lemma_prefix_extend(start_transcript, self.transcript().skip(
                        start_transcript.len() as int,
                    ));
                    assert(start_transcript + self.transcript().skip(start_transcript.len() as int)
                        =~= self.transcript());
                }
            },
            Err(e) => {
                proof {
                    lemma_prefix_self(start_transcript);
                }
                return Err(e);
            },
        }
        let ghost after_begin = self.transcript();
        match self.human_turn(user_input) {
            Ok(()) => {
                proof {
                    lemma_prefix_trans(start_transcript, after_begin, self.transcript());
                }
            },
            Err(e) => {
                proof {
                    lemma_prefix_trans(start_transcript, after_begin, self.transcript());
                }
                return Err(e);
            },
        }
        let mut completed = false;
        let mut s: usize = 0;
        while s < max_tokens && !completed
            invariant
                self.wf(),
                self.turn() == Turn::Assistant,
                self.tok() == old(self).tok(),
                s <= max_tokens,
                self.steps() == old(self).steps() + s,
                completed ==> s >= 1,
                start_transcript == old(self).transcript(),
                start_transcript.is_prefix_of(self.transcript()),
            decreases max_tokens - s,
        {
            let ghost before_step = self.transcript();
            let rep = match self.commit_inference(top_candidate_count) {
                Ok(rep) => rep,
                Err(e) => {
                    return Err(e);
                },
            };
            proof {
                lemma_prefix_extend(before_step, self.transcript().skip(before_step.len() as int));
                assert(before_step + self.transcript().skip(before_step.len() as int)
                    =~= self.transcript());
                lemma_prefix_trans(start_transcript, before_step, self.transcript());
            }
            s = s + 1;
            if rep.stop {
                completed = true;
            }
        }
        Ok(completed)
    }
}

} // verus!
