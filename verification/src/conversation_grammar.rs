//! Conversation templating for the turn-structured grammar: a simulated
//! HCP/VC exchange in which the grammar covers both turns, with the
//! special-token marker prefixing the chat-format control tokens.
//!
//! As in the flow templating, the contracts state the built strings
//! exactly: occurrence replacement over the templates, then joins over the
//! per-message grammar rules.

use crate::strutil::{join, join_spec, replace_all, replace_spec};
use vstd::prelude::*;
use vstd::string::StringExecFns;

verus! {

/// One approved response: its routing category and its exact message.
#[derive(Debug, Clone)]
pub struct VCmessage {
    pub category: String,
    pub message: String,
}

pub open spec fn starting_convo_template_spec() -> Seq<char> {
    r#"
This is a simulated conversation between:

* **HCP** — a healthcare provider who speaks freely.
* **VC** — the Virtual Coordinator, a chatbot that responds **only with predefined, approved messages**.
  The VC never improvises, never invents new content, and never produces text outside the approved list.

---

### **VC Behavior Rules:**

1. The HCP asks questions in free natural language.
2. The VC must **choose the most appropriate message** from the approved list below.
3. The VC must output the **exact wording** of the chosen message.
4. The VC must never invent new categories, new text, or alternative phrasings.
5. The VC should answer in **natural language**.

---

### **Approved VC Responses:**

Category: samples
Samples for {brandname} are available at the closest store.

Category: dosing
*Dosage information for {brandname} is available on the back of the bottle.*

---

### **Output Format:**

When responding, **only output the VC’s chosen sentence**.
Do not output the category name, do not explain the choice, and do not refer to the rules.

---

# Example of Expected Behavior

HCP:
“Can you send me sample info?”
VC:
"""
Category: samples
Samples for {brandname} are available at the closest store.
"""

HCP:
“What’s the dosage?”
VC:
"""
Category: dosing
Dosage information for {brandname} is available on the back of the bottle.
"""
"#@
}

fn starting_convo_template() -> (r: &'static str)
    ensures
        r@ == starting_convo_template_spec(),
{
    r#"
This is a simulated conversation between:

* **HCP** — a healthcare provider who speaks freely.
* **VC** — the Virtual Coordinator, a chatbot that responds **only with predefined, approved messages**.
  The VC never improvises, never invents new content, and never produces text outside the approved list.

---

### **VC Behavior Rules:**

1. The HCP asks questions in free natural language.
2. The VC must **choose the most appropriate message** from the approved list below.
3. The VC must output the **exact wording** of the chosen message.
4. The VC must never invent new categories, new text, or alternative phrasings.
5. The VC should answer in **natural language**.

---

### **Approved VC Responses:**

Category: samples
Samples for {brandname} are available at the closest store.

Category: dosing
*Dosage information for {brandname} is available on the back of the bottle.*

---

### **Output Format:**

When responding, **only output the VC’s chosen sentence**.
Do not output the category name, do not explain the choice, and do not refer to the rules.

---

# Example of Expected Behavior

HCP:
“Can you send me sample info?”
VC:
"""
Category: samples
Samples for {brandname} are available at the closest store.
"""

HCP:
“What’s the dosage?”
VC:
"""
Category: dosing
Dosage information for {brandname} is available on the back of the bottle.
"""
"#
}

pub open spec fn starting_convo_grammar_template_spec() -> Seq<char> {
    r#"start: hcp_response
hcp_response: {START_HEADER} "HCP" {END_HEADER} hcp_content {EOT} vc_response
hcp_content: /(.|\n){hcplimit}/
vc_response: {START_HEADER} "VC" {END_HEADER} "Category: " category_responses {EOT} (hcp_response)?

// brand specific category information
"#@
}

fn starting_convo_grammar_template() -> (r: &'static str)
    ensures
        r@ == starting_convo_grammar_template_spec(),
{
    r#"start: hcp_response
hcp_response: {START_HEADER} "HCP" {END_HEADER} hcp_content {EOT} vc_response
hcp_content: /(.|\n){hcplimit}/
vc_response: {START_HEADER} "VC" {END_HEADER} "Category: " category_responses {EOT} (hcp_response)?

// brand specific category information
"#
}

/// One category's branch of the grammar alternative: the quoted category
/// followed by a reference to its response rule.
pub open spec fn category_branch(m: VCmessage) -> Seq<char> {
    "\""@ + m.category@ + "\\n\" response_"@ + m.category@
}

/// One category's response rule: its exact approved message as a literal.
pub open spec fn response_rule(m: VCmessage) -> Seq<char> {
    "response_"@ + m.category@ + ": \""@ + m.message@ + "\""@
}

/// The system prompt for a brand: the template with the brand name
/// substituted.
pub open spec fn system_prompt_of(brand: Seq<char>) -> Seq<char> {
    replace_spec(starting_convo_template_spec(), "{brandname}"@, brand)
}

/// The grammar source: the template with the length bound and the
/// marker-prefixed chat-control tokens substituted, extended with the
/// category alternative and one response rule per message.
pub open spec fn lark_grammar_of(msgs: Seq<VCmessage>) -> Seq<char> {
    replace_spec(
        replace_spec(
            replace_spec(
                replace_spec(starting_convo_grammar_template_spec(), "{hcplimit}"@, "{0,50}"@),
                "{START_HEADER}"@,
                "\"\u{00FF}<|start_header_id|>\""@,
            ),
            "{END_HEADER}"@,
            "\"\u{00FF}<|end_header_id|>\""@,
        ),
        "{EOT}"@,
        "\"\u{00FF}<|eot_id|>\""@,
    ) + "category_responses: "@ + join_spec(msgs.map_values(|m: VCmessage| category_branch(m)), " | "@)
        + "\n"@ + join_spec(msgs.map_values(|m: VCmessage| response_rule(m)), "\n"@)
}

/// A brand's turn-structured conversation: the approved responses, the
/// system prompt, and the grammar source covering both turns.
pub struct Conversation {
    pub possible_vc_messages: Vec<VCmessage>,
    pub brand_name: String,
    pub system_prompt: String,
    pub lark_grammar: String,
}

impl Conversation {
    pub fn new(brand_name: String, vc_messages: Vec<VCmessage>) -> (r: Conversation)
        ensures
            r.possible_vc_messages@ == vc_messages@,
            r.brand_name@ == brand_name@,
            r.system_prompt@ == system_prompt_of(brand_name@),
            r.lark_grammar@ == lark_grammar_of(vc_messages@),
    {
        let system_prompt = replace_all(
            starting_convo_template(),
            "{brandname}",
            brand_name.as_str(),
        );
        let t1 = replace_all(starting_convo_grammar_template(), "{hcplimit}", "{0,50}");
        let t2 = replace_all(t1.as_str(), "{START_HEADER}", "\"\u{00FF}<|start_header_id|>\"");
        let t3 = replace_all(t2.as_str(), "{END_HEADER}", "\"\u{00FF}<|end_header_id|>\"");
        let mut lark_grammar = replace_all(t3.as_str(), "{EOT}", "\"\u{00FF}<|eot_id|>\"");
        let mut branches: Vec<String> = Vec::new();
        let mut i: usize = 0;
        proof {
            assert(branches@.map_values(|p: String| p@) =~= vc_messages@.take(0).map_values(
                |m: VCmessage| category_branch(m),
            ));
        }
        while i < vc_messages.len()
            invariant
                i <= vc_messages@.len(),
                branches@.map_values(|p: String| p@) == vc_messages@.take(i as int).map_values(
                    |m: VCmessage| category_branch(m),
                ),
            decreases vc_messages@.len() - i,
        {
            let m = &vc_messages[i];
            let mut b = String::new();
            b.append("\"");
            b.append(m.category.as_str());
            b.append("\\n\" response_");
            b.append(m.category.as_str());
            proof {
                assert(b@ =~= category_branch(vc_messages@[i as int]));
            }
            let ghost prev = branches@;
            branches.push(b);
            proof {
                assert(branches@ =~= prev.push(b));
                let lhs = branches@.map_values(|p: String| p@);
                let rhs = vc_messages@.take(i + 1).map_values(|m0: VCmessage| category_branch(m0));
                assert(prev.map_values(|p: String| p@).len() == prev.len());
                assert(vc_messages@.take(i as int).map_values(
                    |m0: VCmessage| category_branch(m0),
                ).len() == i);
                assert(prev.len() == i);
                assert(vc_messages@.take(i + 1) =~= vc_messages@.take(i as int).push(
                    vc_messages@[i as int],
                ));
                assert forall|k: int| 0 <= k < i + 1 implies lhs[k] == rhs[k] by {
                    assert(lhs[k] == branches@[k]@);
                    assert(rhs[k] == category_branch(vc_messages@.take(i + 1)[k]));
                    if k < i {
                        assert(branches@[k] == prev[k]);
                        assert(prev.map_values(|p: String| p@)[k] == prev[k]@);
                        assert(vc_messages@.take(i as int).map_values(
                            |m0: VCmessage| category_branch(m0),
                        )[k] == category_branch(vc_messages@.take(i as int)[k]));
                    } else {
                        assert(branches@[k] == b);
                        assert(vc_messages@.take(i + 1)[k] == vc_messages@[i as int]);
                    }
                }
                assert(lhs =~= rhs);
            }
            i = i + 1;
        }
        let mut rules: Vec<String> = Vec::new();
        let mut j: usize = 0;
        proof {
            assert(vc_messages@.take(vc_messages@.len() as int) =~= vc_messages@);
            assert(rules@.map_values(|p: String| p@) =~= vc_messages@.take(0).map_values(
                |m: VCmessage| response_rule(m),
            ));
        }
        while j < vc_messages.len()
            invariant
                j <= vc_messages@.len(),
                rules@.map_values(|p: String| p@) == vc_messages@.take(j as int).map_values(
                    |m: VCmessage| response_rule(m),
                ),
            decreases vc_messages@.len() - j,
        {
            let m = &vc_messages[j];
            let mut u = String::new();
            u.append("response_");
            u.append(m.category.as_str());
            u.append(": \"");
            u.append(m.message.as_str());
            u.append("\"");
            proof {
                assert(u@ =~= response_rule(vc_messages@[j as int]));
            }
            let ghost prev = rules@;
            rules.push(u);
            proof {
                assert(rules@ =~= prev.push(u));
                let lhs = rules@.map_values(|p: String| p@);
                let rhs = vc_messages@.take(j + 1).map_values(|m0: VCmessage| response_rule(m0));
                assert(prev.map_values(|p: String| p@).len() == prev.len());
                assert(vc_messages@.take(j as int).map_values(
                    |m0: VCmessage| response_rule(m0),
                ).len() == j);
                assert(prev.len() == j);
                assert(vc_messages@.take(j + 1) =~= vc_messages@.take(j as int).push(
                    vc_messages@[j as int],
                ));
                assert forall|k: int| 0 <= k < j + 1 implies lhs[k] == rhs[k] by {
                    assert(lhs[k] == rules@[k]@);
                    assert(rhs[k] == response_rule(vc_messages@.take(j + 1)[k]));
                    if k < j {
                        assert(rules@[k] == prev[k]);
                        assert(prev.map_values(|p: String| p@)[k] == prev[k]@);
                        assert(vc_messages@.take(j as int).map_values(
                            |m0: VCmessage| response_rule(m0),
                        )[k] == response_rule(vc_messages@.take(j as int)[k]));
                    } else {
                        assert(rules@[k] == u);
                        assert(vc_messages@.take(j + 1)[k] == vc_messages@[j as int]);
                    }
                }
                assert(lhs =~= rhs);
            }
            j = j + 1;
        }
        proof {
            assert(vc_messages@.take(vc_messages@.len() as int) =~= vc_messages@);
        }
        let branch_alt = join(&branches, " | ");
        let rule_block = join(&rules, "\n");
        lark_grammar.append("category_responses: ");
        lark_grammar.append(branch_alt.as_str());
        lark_grammar.append("\n");
        lark_grammar.append(rule_block.as_str());
        proof {
            assert(lark_grammar@ =~= lark_grammar_of(vc_messages@));
        }
        Conversation { possible_vc_messages: vc_messages, brand_name, system_prompt, lark_grammar }
    }

    /// The system prompt wrapped in the marker-prefixed chat header and
    /// end-of-turn tokens.
    pub fn get_system_prompt(&self) -> (r: String)
        ensures
            r@ == "\u{00FF}"@ + "<|start_header_id|>"@ + "\u{00FF}"@ + "<|end_header_id|>"@
                + self.system_prompt@ + "\u{00FF}"@ + "<|eot_id|>"@,
    {
        let mut out = String::new();
        out.append("\u{00FF}");
        out.append("<|start_header_id|>");
        out.append("\u{00FF}");
        out.append("<|end_header_id|>");
        out.append(self.system_prompt.as_str());
        out.append("\u{00FF}");
        out.append("<|eot_id|>");
        proof {
            assert(out@ =~= "\u{00FF}"@ + "<|start_header_id|>"@ + "\u{00FF}"@ + "<|end_header_id|>"@
                + self.system_prompt@ + "\u{00FF}"@ + "<|eot_id|>"@);
        }
        out
    }

    /// The fixed greeting that opens a conversation.
    pub fn get_initial_message(&self) -> (r: String)
        ensures
            r@
                == "Hello! I am reaching out to you about XARELTO please feel free to ask any questions about drug samples, or dosing."@,
    {
        String::from_str(
            "Hello! I am reaching out to you about XARELTO please feel free to ask any questions about drug samples, or dosing.",
        )
    }
}

} // verus!
