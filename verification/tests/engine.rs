use constrained_chat::constraints::ConstraintAdapter;
use constrained_chat::conversation_loop::{ConversationData, ConversationInfo, Turn};
use constrained_chat::grammar::GrammarFlow;
use constrained_chat::inference::ScriptedLlm;
use constrained_chat::token::{Canidate, Canidates};
use constrained_chat::tokenizer::TableTokenizer;
use llguidance::api::TopLevelGrammar;
use llguidance::toktrie::{
    InferenceCapabilities, TokEnv, TokRxInfo, TokTrie, TokenId, TokenizerEnv,
};
use llguidance::{Constraint, ParserFactory};
use std::sync::Arc;

struct ToyEnv {
    trie: TokTrie,
}

impl TokenizerEnv for ToyEnv {
    fn tok_trie(&self) -> &TokTrie {
        &self.trie
    }

    fn tokenize_bytes(&self, s: &[u8]) -> Vec<TokenId> {
        self.trie.greedy_tokenize(s)
    }

    fn tokenize_is_canonical(&self) -> bool {
        true
    }
}

/// Builds a real grammar engine over a toy vocabulary: token `i` is
/// `words[i]`, with one end-of-sequence token appended after them.
fn make_constraint(words: &[&str], lark: &str, ff: bool) -> Constraint {
    let mut byte_words: Vec<Vec<u8>> = words.iter().map(|w| w.as_bytes().to_vec()).collect();
    byte_words.push(b"\xFF<|end|>".to_vec());
    let info = TokRxInfo {
        vocab_size: byte_words.len() as u32,
        tok_eos: byte_words.len() as u32 - 1,
        tok_bos: None,
        tok_pad: None,
        tok_unk: None,
        tok_end_of_turn: None,
    };
    let trie = TokTrie::from(&info, &byte_words);
    let env: TokEnv = Arc::new(ToyEnv { trie });
    let caps = InferenceCapabilities {
        ff_tokens: ff,
        conditional_ff_tokens: ff,
        backtrack: false,
        fork: false,
    };
    let mut factory = ParserFactory::new(&env, caps, &[]).unwrap();
    factory.quiet();
    let grammar = TopLevelGrammar::from_lark(lark.to_string());
    let parser = factory.create_parser(grammar).unwrap();
    Constraint::new(parser)
}

fn decode_table(words: &[&str]) -> TableTokenizer {
    let mut v: Vec<String> = words.iter().map(|w| w.to_string()).collect();
    v.push("<|end|>".to_string());
    TableTokenizer::new(v)
}

fn c(token_id: u32, probability: u64, logit: i64) -> Canidate {
    Canidate { token_id, probability, logit }
}

fn flat_step(weights: &[(u32, u64, i64)]) -> Canidates {
    Canidates::new(weights.iter().map(|&(t, p, l)| c(t, p, l)).collect())
}

fn engine_for(
    words: &[&str],
    lark: &str,
    ff: bool,
    steps: Vec<Canidates>,
    starting_turn: Turn,
) -> ConversationData<ScriptedLlm, TableTokenizer> {
    let constraint = ConstraintAdapter::attach(make_constraint(words, lark, ff));
    ConversationData::new(ConversationInfo {
        tokenizer: decode_table(words),
        llm: ScriptedLlm::new(steps),
        grammar_flow: GrammarFlow::new("TEST".to_string(), Vec::new()),
        constraint,
        starting_turn,
        end_turn_token: None,
    })
}

const CHOICE_WORDS: &[&str] = &["samples", "dosing", "\n"];
const CHOICE_LARK: &str = "start: (\"samples\" | \"dosing\") \"\\n\"";

#[test]
fn scenario_masked_selection_picks_samples() {
    // grammar allows only {"samples", "dosing"}; "samples" outranks all
    let steps = vec![
        flat_step(&[(0, 500, 50), (1, 200, 20), (2, 900, 90), (3, 100, 10)]),
        flat_step(&[(0, 500, 50), (1, 200, 20), (2, 900, 90), (3, 100, 10)]),
    ];
    let mut convo = engine_for(CHOICE_WORDS, CHOICE_LARK, false, steps, Turn::Assistant);
    let rep = convo.commit_inference(4).unwrap();
    assert_eq!(rep.chosen, Some(0));
    assert_eq!(rep.fed, vec![0]);
    assert!(!rep.stop);
    for x in &rep.masked_top {
        assert!(x.token_id == 0 || x.token_id == 1);
    }
    // the newline token outranks everything before masking
    assert_eq!(rep.premask_top[0].token_id, 2);
    assert_eq!(convo.transcript_string(), "samples");
}

#[test]
fn scenario_fast_forward_commits_and_feeds_in_order() {
    // after choosing "a" the grammar forces "x" "y" "z"; every forced
    // token's text must reach the transcript in order
    let words = &["a", "b", "x", "y", "z", "\n"];
    let lark = "start: (\"a\" | \"b\") \"x\" \"y\" \"z\" \"\\n\"";
    let dist: &[(u32, u64, i64)] = &[
        (0, 500, 50),
        (1, 200, 20),
        (2, 50, 5),
        (3, 50, 5),
        (4, 50, 5),
        (5, 50, 5),
    ];
    let steps: Vec<Canidates> = (0..8).map(|_| flat_step(dist)).collect();
    let mut convo = engine_for(words, lark, true, steps, Turn::Assistant);
    let rep = convo.commit_inference(3).unwrap();
    assert_eq!(rep.chosen, Some(0));
    assert_eq!(rep.fed[0], 0);
    if rep.fast_forward.len() > 1 {
        // the fast-forward sequence was fed whole, in order
        assert_eq!(rep.fed, rep.fast_forward);
    }
    let mut guard = 0;
    while convo.transcript_string() != "axyz\n" {
        let r = convo.commit_inference(3).unwrap();
        if r.stop {
            break;
        }
        guard += 1;
        assert!(guard < 10, "generation did not reach the forced text");
    }
    assert_eq!(convo.transcript_string(), "axyz\n");
}

#[test]
fn scenario_unavailable_mask_drives_default_step() {
    // after the grammar is exhausted there is nothing to sample: the engine
    // must not choose a token, and must drive the engine's own step instead
    let steps = vec![
        flat_step(&[(0, 500, 50), (1, 200, 20), (2, 900, 90), (3, 100, 10)]),
        flat_step(&[(0, 500, 50), (1, 200, 20), (2, 900, 90), (3, 100, 10)]),
        flat_step(&[(0, 500, 50), (1, 200, 20), (2, 900, 90), (3, 100, 10)]),
    ];
    let mut convo = engine_for(&["a"], "start: \"a\"", false, steps, Turn::Assistant);
    let first = convo.commit_inference(2).unwrap();
    assert_eq!(first.chosen, Some(0));
    assert_eq!(convo.transcript_string(), "a");
    let second = convo.commit_inference(2).unwrap();
    assert_eq!(second.chosen, None);
    assert!(second.mask.is_none());
    assert!(second.masked_top.is_empty());
    assert!(second.stop);
    assert_eq!(second.fed, Vec::<u32>::new());
    assert_eq!(convo.transcript_string(), "a");
}

#[test]
fn scenario_max_steps_bounds_the_loop() {
    // one assistant step only, whatever the stop flag said
    let steps = vec![
        flat_step(&[(0, 500, 50), (1, 200, 20), (2, 900, 90), (3, 100, 10)]),
        flat_step(&[(0, 500, 50), (1, 200, 20), (2, 900, 90), (3, 100, 10)]),
    ];
    let mut convo = engine_for(CHOICE_WORDS, CHOICE_LARK, false, steps, Turn::Human);
    let completed = convo.simple_hitl_generation("", 1, 3).unwrap();
    assert!(!completed);
    assert_eq!(convo.transcript_string(), "samples");
    assert_eq!(convo.token_position(), 1);
    assert_eq!(convo.current_turn(), Turn::Assistant);
}

#[test]
fn full_generation_runs_to_grammar_completion() {
    let dist: &[(u32, u64, i64)] = &[(0, 500, 50), (1, 200, 20), (2, 900, 90), (3, 100, 10)];
    let steps: Vec<Canidates> = (0..6).map(|_| flat_step(dist)).collect();
    let mut convo = engine_for(CHOICE_WORDS, CHOICE_LARK, false, steps, Turn::Human);
    let completed = convo.simple_hitl_generation("", 20, 3).unwrap();
    assert!(completed);
    assert_eq!(convo.transcript_string(), "samples\n");
}

#[test]
fn degenerate_mask_is_reported_distinctly() {
    // the grammar only allows "samples", but the backend's distribution
    // holds no candidate for it: masking leaves nothing to choose
    let steps = vec![flat_step(&[(1, 200, 20), (2, 900, 90)])];
    let mut convo = engine_for(
        &["samples", "dosing", "\n"],
        "start: \"samples\" \"\\n\"",
        false,
        steps,
        Turn::Assistant,
    );
    let err = match convo.commit_inference(3) {
        Err(e) => e,
        Ok(_) => panic!("an all-masked distribution must be reported as degenerate"),
    };
    assert_eq!(
        err.stage,
        constrained_chat::conversation_loop::FailStage::DegenerateMask
    );
    assert_eq!(convo.transcript_string(), "");
}

#[test]
fn human_turn_forces_input_and_boundary() {
    // the human's text and the end-of-turn marker reach the grammar engine
    // unmasked; the assistant's constrained reply follows
    let words = &["samples", "dosing", "\n", "h", "i"];
    let lark = "start: /[hi]{0,10}/ \"\\n\" (\"samples\" | \"dosing\") \"\\n\"";
    let dist: &[(u32, u64, i64)] = &[
        (0, 500, 50),
        (1, 200, 20),
        (2, 50, 5),
        (3, 30, 3),
        (4, 30, 3),
    ];
    let steps: Vec<Canidates> = (0..6).map(|_| flat_step(dist)).collect();
    let constraint = ConstraintAdapter::attach(make_constraint(words, lark, false));
    let mut convo = ConversationData::new(ConversationInfo {
        tokenizer: decode_table(words),
        llm: ScriptedLlm::new(steps),
        grammar_flow: GrammarFlow::new("TEST".to_string(), Vec::new()),
        constraint,
        starting_turn: Turn::Human,
        end_turn_token: Some(2),
    });
    let completed = convo.simple_hitl_generation("hi", 10, 3).unwrap();
    assert!(completed);
    assert_eq!(convo.transcript_string(), "hi\nsamples\n");
}

#[test]
fn stepping_a_finished_grammar_fails_at_masking() {
    let dist: &[(u32, u64, i64)] = &[(0, 500, 50), (1, 200, 20), (2, 900, 90), (3, 100, 10)];
    let steps: Vec<Canidates> = (0..8).map(|_| flat_step(dist)).collect();
    let mut convo = engine_for(CHOICE_WORDS, CHOICE_LARK, false, steps, Turn::Human);
    let completed = convo.simple_hitl_generation("", 20, 3).unwrap();
    assert!(completed);
    // the grammar already accepted; a further step is a fatal masking error
    match convo.commit_inference(3) {
        Err(e) => assert_eq!(e.stage, constrained_chat::conversation_loop::FailStage::Masking),
        Ok(rep) => assert!(rep.stop, "a finished grammar must not sample further"),
    }
}

#[test]
fn forcing_disallowed_input_fails_at_commit() {
    // the grammar has no human-turn region, so forcing literal input into
    // it is a fatal grammar error
    let steps = vec![flat_step(&[(0, 500, 50), (1, 200, 20)])];
    let words = &["samples", "dosing", "\n", "i"];
    let constraint = ConstraintAdapter::attach(make_constraint(words, CHOICE_LARK, false));
    let mut convo = ConversationData::new(ConversationInfo {
        tokenizer: decode_table(words),
        llm: ScriptedLlm::new(steps),
        grammar_flow: GrammarFlow::new("TEST".to_string(), Vec::new()),
        constraint,
        starting_turn: Turn::Human,
        end_turn_token: None,
    });
    convo.begin_conversation().unwrap();
    match convo.human_turn("i") {
        Err(e) => assert_eq!(e.stage, constrained_chat::conversation_loop::FailStage::Commit),
        Ok(()) => panic!("the grammar does not admit free-form input here"),
    }
    // the transcript so far is preserved for diagnostics
    assert_eq!(convo.transcript_string(), "");
}

#[test]
fn turn_transition_alternates() {
    assert_eq!(Turn::Human.next(), Turn::Assistant);
    assert_eq!(Turn::Assistant.next(), Turn::Human);
}
