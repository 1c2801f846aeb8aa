//! Grammar-source templating: builds the system prompt and the formal
//! grammar text from a list of approved category/message pairs.
//!
//! The prompt and the grammar are template text with two kinds of holes:
//! the brand name and the approved-responses block.  The contracts state
//! the built strings exactly, as occurrence replacement over the template
//! followed by joins over the per-message blocks.

use crate::strutil::{join, join_spec, lower_of, lowercase, replace_all, replace_spec};
use vstd::prelude::*;
use vstd::string::StringExecFns;

verus! {

/// One approved response: its routing category, kind, a description of the
/// questions it answers, and the message in both its placeholder-URL and
/// real-URL forms.
#[derive(Debug, Clone)]
pub struct VCmessage {
    pub category: String,
    pub kind: String,
    pub description: String,
    pub mlr_message: String,
    pub message: String,
}

pub open spec fn starting_convo_template_spec() -> Seq<char> {
    r#"
You are a virtual Coordinator chatbot providing information about {brandname}.
You interact with healthcare providers who ask questions about the brand.
You must always respond with text directly from the approved list.

---

## **Response rules**

1. Respond with the most appropriate response from the **Approved VC Responses**
2. You must choose the response from the approved list.
3. You must only respond with the chosen response, do not include any other text.
4. Match the HCP's question to the appropriate category based on the description.

---

### **Approved Responses List**

{approved_responses}

---

### **Important Output Formatting**

Only respond in the following format:

Category: NAME OF CATEGORY HERE

VC MESSAGE HERE
"#@
}

fn starting_convo_template() -> (r: &'static str)
    ensures
        r@ == starting_convo_template_spec(),
{
    r#"
You are a virtual Coordinator chatbot providing information about {brandname}.
You interact with healthcare providers who ask questions about the brand.
You must always respond with text directly from the approved list.

---

## **Response rules**

1. Respond with the most appropriate response from the **Approved VC Responses**
2. You must choose the response from the approved list.
3. You must only respond with the chosen response, do not include any other text.
4. Match the HCP's question to the appropriate category based on the description.

---

### **Approved Responses List**

{approved_responses}

---

### **Important Output Formatting**

Only respond in the following format:

Category: NAME OF CATEGORY HERE

VC MESSAGE HERE
"#
}

pub open spec fn starting_convo_grammar_template_spec() -> Seq<char> {
    r#"
start: "Category: " reponse_option "\n"
// brand specific category information
"#@
}

fn starting_convo_grammar_template() -> (r: &'static str)
    ensures
        r@ == starting_convo_grammar_template_spec(),
{
    r#"
start: "Category: " reponse_option "\n"
// brand specific category information
"#
}

/// One message's block in the approved-responses list.
pub open spec fn approved_entry(m: VCmessage) -> Seq<char> {
    "Category: "@ + m.category@ + "\nDescription: "@ + m.description@ + "\nResponse: "@
        + m.message@
}

/// The whole approved-responses list: the blocks separated by blank lines.
pub open spec fn approved_block(msgs: Seq<VCmessage>) -> Seq<char> {
    join_spec(msgs.map_values(|m: VCmessage| approved_entry(m)), "\n\n"@)
}

/// One category as a quoted grammar literal.
pub open spec fn category_option(m: VCmessage) -> Seq<char> {
    "\""@ + m.category@ + "\""@
}

/// The grammar's alternative over all categories.
pub open spec fn options_block(msgs: Seq<VCmessage>) -> Seq<char> {
    join_spec(msgs.map_values(|m: VCmessage| category_option(m)), " | "@)
}

/// The system prompt for a brand: the template with the brand name and the
/// approved-responses block substituted.
pub open spec fn system_prompt_of(brand: Seq<char>, msgs: Seq<VCmessage>) -> Seq<char> {
    replace_spec(
        replace_spec(starting_convo_template_spec(), "{brandname}"@, brand),
        "{approved_responses}"@,
        approved_block(msgs),
    )
}

/// The grammar source for a brand: the grammar template with the length
/// bound substituted, extended with the category alternative.
pub open spec fn lark_grammar_of(msgs: Seq<VCmessage>) -> Seq<char> {
    replace_spec(starting_convo_grammar_template_spec(), "{hcplimit}"@, "{0,50}"@)
        + "reponse_option[capture]: "@ + options_block(msgs)
}

/// A brand's conversation flow: the approved responses, the system prompt
/// built from them, and the grammar source that confines generation to the
/// approved categories.
pub struct GrammarFlow {
    pub possible_vc_messages: Vec<VCmessage>,
    pub brand_name: String,
    pub system_prompt: String,
    pub lark_grammar: String,
}

impl GrammarFlow {
    pub fn new(brand_name: String, vc_messages: Vec<VCmessage>) -> (r: GrammarFlow)
        ensures
            r.possible_vc_messages@ == vc_messages@,
            r.brand_name@ == brand_name@,
            r.system_prompt@ == system_prompt_of(brand_name@, vc_messages@),
            r.lark_grammar@ == lark_grammar_of(vc_messages@),
    {
        let mut entries: Vec<String> = Vec::new();
        let mut i: usize = 0;
        proof {
            assert(entries@.map_values(|p: String| p@) =~= vc_messages@.take(0).map_values(
                |m: VCmessage| approved_entry(m),
            ));
        }
        while i < vc_messages.len()
            invariant
                i <= vc_messages@.len(),
                entries@.map_values(|p: String| p@) == vc_messages@.take(i as int).map_values(
                    |m: VCmessage| approved_entry(m),
                ),
            decreases vc_messages@.len() - i,
        {
            let m = &vc_messages[i];
            let mut e = String::new();
            e.append("Category: ");
            e.append(m.category.as_str());
            e.append("\nDescription: ");
            e.append(m.description.as_str());
            e.append("\nResponse: ");
            e.append(m.message.as_str());
            proof {
                assert(e@ =~= approved_entry(vc_messages@[i as int]));
            }
            let ghost prev = entries@;
            entries.push(e);
            proof {
                assert(entries@ =~= prev.push(e));
                let lhs = entries@.map_values(|p: String| p@);
                let rhs = vc_messages@.take(i + 1).map_values(|m0: VCmessage| approved_entry(m0));
                assert(prev.map_values(|p: String| p@).len() == prev.len());
                assert(vc_messages@.take(i as int).map_values(
                    |m0: VCmessage| approved_entry(m0),
                ).len() == i);
                assert(prev.len() == i);
                assert forall|k: int| 0 <= k < i + 1 implies lhs[k] == rhs[k] by {
                    assert(lhs[k] == entries@[k]@);
                    assert(rhs[k] == approved_entry(vc_messages@.take(i + 1)[k]));
                    if k < i {
                        assert(entries@[k] == prev[k]);
                        assert(prev.map_values(|p: String| p@)[k] == prev[k]@);
                        assert(vc_messages@.take(i as int).map_values(
                            |m0: VCmessage| approved_entry(m0),
                        )[k] == approved_entry(vc_messages@.take(i as int)[k]));
                    } else {
                        assert(entries@[k] == e);
                        assert(vc_messages@.take(i + 1)[k] == vc_messages@[i as int]);
                    }
                }
                assert(lhs =~= rhs);
            }
            i = i + 1;
        }
        proof {
            assert(vc_messages@.take(vc_messages@.len() as int) =~= vc_messages@);
        }
        let approved = join(&entries, "\n\n");
        let t1 = replace_all(starting_convo_template(), "{brandname}", brand_name.as_str());
        let system_prompt = replace_all(
            t1.as_str(),
            "{approved_responses}",
            approved.as_str(),
        );
        let mut opts: Vec<String> = Vec::new();
        let mut j: usize = 0;
        proof {
            assert(opts@.map_values(|p: String| p@) =~= vc_messages@.take(0).map_values(
                |m: VCmessage| category_option(m),
            ));
        }
        while j < vc_messages.len()
            invariant
                j <= vc_messages@.len(),
                opts@.map_values(|p: String| p@) == vc_messages@.take(j as int).map_values(
                    |m: VCmessage| category_option(m),
                ),
            decreases vc_messages@.len() - j,
        {
            let m = &vc_messages[j];
            let mut o = String::new();
            o.append("\"");
            o.append(m.category.as_str());
            o.append("\"");
            proof {
                assert(o@ =~= category_option(vc_messages@[j as int]));
            }
            let ghost prev = opts@;
            opts.push(o);
            proof {
                assert(opts@ =~= prev.push(o));
                let lhs = opts@.map_values(|p: String| p@);
                let rhs = vc_messages@.take(j + 1).map_values(|m0: VCmessage| category_option(m0));
                assert(prev.map_values(|p: String| p@).len() == prev.len());
                assert(vc_messages@.take(j as int).map_values(
                    |m0: VCmessage| category_option(m0),
                ).len() == j);
                assert(prev.len() == j);
                assert forall|k: int| 0 <= k < j + 1 implies lhs[k] == rhs[k] by {
                    assert(lhs[k] == opts@[k]@);
                    assert(rhs[k] == category_option(vc_messages@.take(j + 1)[k]));
                    if k < j {
                        assert(opts@[k] == prev[k]);
                        assert(prev.map_values(|p: String| p@)[k] == prev[k]@);
                        assert(vc_messages@.take(j as int).map_values(
                            |m0: VCmessage| category_option(m0),
                        )[k] == category_option(vc_messages@.take(j as int)[k]));
                    } else {
                        assert(opts@[k] == o);
                        assert(vc_messages@.take(j + 1)[k] == vc_messages@[j as int]);
                    }
                }
                assert(lhs =~= rhs);
            }
            j = j + 1;
        }
        proof {
            assert(vc_messages@.take(vc_messages@.len() as int) =~= vc_messages@);
        }
        let options = join(&opts, " | ");
        let mut lark_grammar = replace_all(starting_convo_grammar_template(), "{hcplimit}", "{0,50}");
        lark_grammar.append("reponse_option[capture]: ");
        lark_grammar.append(options.as_str());
        GrammarFlow { possible_vc_messages: vc_messages, brand_name, system_prompt, lark_grammar }
    }

    /// The system prompt wrapped in the chat header and end-of-turn
    /// markers.
    pub fn get_system_prompt(&self) -> (r: String)
        ensures
            r@ == "<|start_header_id|>"@ + "system"@ + "<|end_header_id|>"@ + self.system_prompt@
                + "<|eot_id|>"@,
    {
        let mut out = String::new();
        out.append("<|start_header_id|>");
        out.append("system");
        out.append("<|end_header_id|>");
        out.append(self.system_prompt.as_str());
        out.append("<|eot_id|>");
        out
    }

    /// The fixed greeting that opens a conversation.
    pub fn get_initial_message(&self) -> (r: String)
        ensures
            r@
                == "Hello! I am reaching out to you about XARELTO please feel free to ask any questions about drug samples, or dosing."@,
    {
        String::from_str(
            "Hello! I am reaching out to you about XARELTO please feel free to ask any questions about drug samples, or dosing.",
        )
    }

    /// A natural sample question for one approved response, varied by
    /// `index`: the description is stripped of its request phrasings,
    /// lowercased, and framed by one of four question templates.
    pub fn generate_sample_question(description: &str, index: usize) -> (r: String)
        ensures
            ({
                let simp = simplified_of(description@);
                r@ == if index % 4 == 0 {
                    "Can you help me with "@ + simp + "?"@
                } else if index % 4 == 1 {
                    "I need information about "@ + simp
                } else if index % 4 == 2 {
                    "Tell me about "@ + simp
                } else {
                    "What do you have on "@ + simp
                }
            }),
    {
        let s1 = replace_all(description, "HCP is asking for information about ", "");
        let s2 = replace_all(s1.as_str(), "HCP requests information about ", "");
        let s3 = replace_all(s2.as_str(), "HCP is asking about ", "");
        let s4 = replace_all(s3.as_str(), "HCP requests ", "");
        let s5 = replace_all(s4.as_str(), "HCPs requesting information about ", "");
        let s6 = replace_all(s5.as_str(), "HCP asks about ", "");
        let simplified = lowercase(s6.as_str());
        let ghost simp = simplified_of(description@);
        let sel = index % 4;
        let mut out = String::new();
        if sel == 0 {
            out.append("Can you help me with ");
            out.append(simplified.as_str());
            out.append("?");
            proof {
                assert(out@ =~= "Can you help me with "@ + simp + "?"@);
            }
        } else if sel == 1 {
            out.append("I need information about ");
            out.append(simplified.as_str());
            proof {
                assert(out@ =~= "I need information about "@ + simp);
            }
        } else if sel == 2 {
            out.append("Tell me about ");
            out.append(simplified.as_str());
            proof {
                assert(out@ =~= "Tell me about "@ + simp);
            }
        } else {
            out.append("What do you have on ");
            out.append(simplified.as_str());
            proof {
                assert(out@ =~= "What do you have on "@ + simp);
            }
        }
        out
    }
}

/// A description reduced to its subject: the request phrasings removed,
/// then lowercased.
pub open spec fn simplified_of(d: Seq<char>) -> Seq<char> {
    lower_of(
        replace_spec(
            replace_spec(
                replace_spec(
                    replace_spec(
                        replace_spec(
                            replace_spec(d, "HCP is asking for information about "@, ""@),
                            "HCP requests information about "@,
                            ""@,
                        ),
                        "HCP is asking about "@,
                        ""@,
                    ),
                    "HCP requests "@,
                    ""@,
                ),
                "HCPs requesting information about "@,
                ""@,
            ),
            "HCP asks about "@,
            ""@,
        ),
    )
}

} // verus!
