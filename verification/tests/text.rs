use constrained_chat::conversation_grammar::Conversation;
use constrained_chat::conversation_grammar::VCmessage as TurnMessage;
use constrained_chat::grammar::{GrammarFlow, VCmessage};
use constrained_chat::strutil::{join, lowercase, replace_all, str_eq, trim_str};
use constrained_chat::tokenizer::{TableTokenizer, Tokenizer};

fn msg(category: &str, description: &str, message: &str) -> VCmessage {
    VCmessage {
        category: category.to_string(),
        kind: "reactive".to_string(),
        description: description.to_string(),
        mlr_message: message.to_string(),
        message: message.to_string(),
    }
}

#[test]
fn replace_all_basic() {
    assert_eq!(replace_all("a{x}b{x}c", "{x}", "!"), "a!b!c");
    assert_eq!(replace_all("aaa", "aa", "b"), "ba");
    assert_eq!(replace_all("hello", "xyz", "!"), "hello");
    assert_eq!(replace_all("hello", "", "!"), "hello");
    assert_eq!(replace_all("{{conversation_continuer}}", "{{conversation_continuer}}", ""), "");
}

#[test]
fn trim_strips_both_ends() {
    assert_eq!(trim_str("  hello \r\n"), "hello");
    assert_eq!(trim_str("\t\n "), "");
    assert_eq!(trim_str("no trim"), "no trim");
}

#[test]
fn join_interleaves_separator() {
    let parts: Vec<String> = vec!["a".to_string(), "b".to_string(), "c".to_string()];
    assert_eq!(join(&parts, " | "), "a | b | c");
    let one: Vec<String> = vec!["solo".to_string()];
    assert_eq!(join(&one, " | "), "solo");
    let none: Vec<String> = Vec::new();
    assert_eq!(join(&none, " | "), "");
}

#[test]
fn str_eq_compares_by_characters() {
    assert!(str_eq("abc", "abc"));
    assert!(!str_eq("abc", "abd"));
    assert!(!str_eq("abc", "ab"));
}

#[test]
fn lowercase_folds_case() {
    // would fail if the case-folding wrapper handed its input back unchanged
    assert_eq!(lowercase("Dosing QUESTIONS"), "dosing questions");
}

#[test]
fn grammar_flow_builds_prompt_and_grammar() {
    let flow = GrammarFlow::new(
        "PEMAZYRE".to_string(),
        vec![
            msg("samples", "HCP is asking about samples", "Samples are available."),
            msg("dosing", "HCP is asking about dosing", "See the label."),
        ],
    );
    assert!(flow.system_prompt.contains("about PEMAZYRE."));
    assert!(!flow.system_prompt.contains("{brandname}"));
    assert!(!flow.system_prompt.contains("{approved_responses}"));
    assert!(flow.system_prompt.contains(
        "Category: samples\nDescription: HCP is asking about samples\nResponse: Samples are available.\n\nCategory: dosing"
    ));
    assert!(flow.lark_grammar.contains("start: \"Category: \" reponse_option \"\\n\""));
    assert!(flow.lark_grammar.ends_with("reponse_option[capture]: \"samples\" | \"dosing\""));
    assert_eq!(flow.possible_vc_messages.len(), 2);
    assert_eq!(flow.brand_name, "PEMAZYRE");
}

#[test]
fn grammar_flow_system_prompt_is_wrapped() {
    let flow = GrammarFlow::new("X".to_string(), vec![]);
    let wrapped = flow.get_system_prompt();
    assert!(wrapped.starts_with("<|start_header_id|>system<|end_header_id|>"));
    assert!(wrapped.ends_with("<|eot_id|>"));
    assert!(wrapped.contains(&flow.system_prompt));
}

#[test]
fn sample_questions_vary_by_index() {
    let d = "HCP is asking about Dosing Information";
    assert_eq!(
        GrammarFlow::generate_sample_question(d, 0),
        "Can you help me with dosing information?"
    );
    assert_eq!(
        GrammarFlow::generate_sample_question(d, 1),
        "I need information about dosing information"
    );
    assert_eq!(GrammarFlow::generate_sample_question(d, 2), "Tell me about dosing information");
    assert_eq!(
        GrammarFlow::generate_sample_question(d, 3),
        "What do you have on dosing information"
    );
    assert_eq!(
        GrammarFlow::generate_sample_question("HCP requests Samples", 4),
        "Can you help me with samples?"
    );
}

#[test]
fn conversation_builds_turn_grammar() {
    let convo = Conversation::new(
        "XARELTO".to_string(),
        vec![
            TurnMessage {
                category: "samples".to_string(),
                message: "Samples for XARELTO are available at the closest store.".to_string(),
            },
            TurnMessage {
                category: "dosing".to_string(),
                message: "Dosage information is on the bottle.".to_string(),
            },
        ],
    );
    assert!(convo.system_prompt.contains("Samples for XARELTO are available"));
    assert!(!convo.system_prompt.contains("{brandname}"));
    assert!(convo.lark_grammar.contains("hcp_content: /(.|\\n){0,50}/"));
    assert!(convo.lark_grammar.contains("\"\u{00FF}<|start_header_id|>\""));
    assert!(convo.lark_grammar.contains(
        "category_responses: \"samples\\n\" response_samples | \"dosing\\n\" response_dosing\n"
    ));
    assert!(convo.lark_grammar.ends_with(
        "response_samples: \"Samples for XARELTO are available at the closest store.\"\nresponse_dosing: \"Dosage information is on the bottle.\""
    ));
    let wrapped = convo.get_system_prompt();
    assert!(wrapped.starts_with("\u{00FF}<|start_header_id|>\u{00FF}<|end_header_id|>"));
    assert!(wrapped.ends_with("\u{00FF}<|eot_id|>"));
    assert!(convo.get_initial_message().contains("XARELTO"));
}

#[test]
fn table_tokenizer_round_trips_its_own_output() {
    let tok = TableTokenizer::new(vec![
        "hello".to_string(),
        " ".to_string(),
        "world".to_string(),
        "wo".to_string(),
    ]);
    let tokens = tok.tokenize("hello world");
    assert_eq!(tokens, vec![0, 1, 2]);
    let text = tok.tokens_to_string(&tokens);
    assert_eq!(text, "hello world");
    assert_eq!(tok.tokenize(&text), tokens);
}

#[test]
fn table_tokenizer_prefers_longest_match() {
    // the known exception to the round trip: a sequence not produced by the
    // tokenizer, whose decoded text re-tokenizes to a longer word
    let tok = TableTokenizer::new(vec!["a".to_string(), "b".to_string(), "ab".to_string()]);
    assert_eq!(tok.tokenize("ab"), vec![2]);
    let decoded = tok.tokens_to_string(&[0, 1]);
    assert_eq!(decoded, "ab");
    assert_ne!(tok.tokenize(&decoded), vec![0, 1]);
}

#[test]
fn table_tokenizer_reports_invalid_tokens_distinctly() {
    let tok = TableTokenizer::new(vec!["a".to_string()]);
    assert_eq!(tok.tokens_to_string(&[0]), "a");
    assert_eq!(tok.tokens_to_string(&[5]), "\u{FFFD}");
}

#[test]
fn table_tokenizer_drops_unmatchable_characters() {
    let tok = TableTokenizer::new(vec!["a".to_string(), "b".to_string()]);
    assert_eq!(tok.tokenize("a!b"), vec![0, 1]);
}
