//! The tokenizer/vocabulary capability: string⇄token conversion.
//!
//! The real tokenizer environment belongs to the inference backend and
//! lives outside this crate; the conversation engine is written against
//! this trait.  `TableTokenizer` is an in-crate implementation over an
//! explicit vocabulary table, with a proved round-trip law.

use crate::strutil::match_at;
use vstd::prelude::*;
use vstd::string::{StrSliceExecFns, StringExecFns};

verus! {

/// String⇄token conversion.  Each implementation fixes, as spec functions,
/// what a token sequence decodes to and what a text tokenizes to; the
/// executable methods are bound to those functions exactly.
pub trait Tokenizer {
    /// The text `tokens` decodes to.  An undecodable sequence maps to a
    /// distinct fallback value, never to a failure.
    spec fn spec_decode(&self, tokens: Seq<u32>) -> Seq<char>;

    /// The token sequence `text` tokenizes to.
    spec fn spec_tokenize(&self, text: Seq<char>) -> Seq<u32>;

    /// Renders a token sequence as text.
    fn tokens_to_string(&self, tokens: &[u32]) -> (r: String)
        ensures
            r@ == self.spec_decode(tokens@),
    ;

    /// Converts text into a token sequence.
    fn tokenize(&self, text: &str) -> (r: Vec<u32>)
        ensures
            r@ == self.spec_tokenize(text@),
    ;
}

// ---------------------------------------------------------------------------
// Table tokenizer: greedy longest match over an explicit vocabulary
// ---------------------------------------------------------------------------
/// `w` matches at the front of `s`.
pub open spec fn word_ok(w: Seq<char>, s: Seq<char>) -> bool {
    0 < w.len() <= s.len() && s.take(w.len() as int) == w
}

/// The better of two candidate matches `(index, length)`: the longer one,
/// the left one on ties.
pub open spec fn combine(c: Option<(int, int)>, r: Option<(int, int)>) -> Option<(int, int)> {
    match c {
        Option::None => r,
        Option::Some(cp) => match r {
            Option::None => c,
            Option::Some(rp) => if cp.1 >= rp.1 {
                c
            } else {
                r
            },
        },
    }
}

proof fn lemma_combine_assoc(a: Option<(int, int)>, b: Option<(int, int)>, c: Option<(int, int)>)
    ensures
        combine(a, combine(b, c)) == combine(combine(a, b), c),
{
}

/// The longest word of `vv` at index `j` or later that matches at the
/// front of `s`, earliest index on ties, with its length.
pub open spec fn best_from(vv: Seq<Seq<char>>, s: Seq<char>, j: int) -> Option<(int, int)>
    decreases vv.len() - j,
{
    if j < 0 || j >= vv.len() {
        Option::None
    } else {
        let rest = best_from(vv, s, j + 1);
        if word_ok(vv[j], s) {
            combine(Option::Some((j, vv[j].len() as int)), rest)
        } else {
            rest
        }
    }
}

proof fn lemma_best_valid(vv: Seq<Seq<char>>, s: Seq<char>, j: int)
    ensures
        match best_from(vv, s, j) {
            Option::Some(p) => 0 <= p.0 < vv.len() && p.1 == vv[p.0].len() && word_ok(vv[p.0], s)
                && 1 <= p.1 <= s.len(),
            Option::None => true,
        },
    decreases vv.len() - j,
{
    if j < 0 || j >= vv.len() {
    } else {
        lemma_best_valid(vv, s, j + 1);
    }
}

/// Greedy longest-match tokenization of `s` over the vocabulary `vv`:
/// repeatedly emit the longest matching word's index, earliest on ties; a
/// character no word matches is dropped.
pub open spec fn spec_tokenize_with(vv: Seq<Seq<char>>, s: Seq<char>) -> Seq<u32>
    decreases s.len(),
{
    if s.len() == 0 {
        Seq::empty()
    } else {
        match best_from(vv, s, 0) {
            Option::Some(p) => {
                let l0 = if 1 <= p.1 <= s.len() {
                    p.1
                } else {
                    1
                };
                seq![p.0 as u32] + spec_tokenize_with(vv, s.skip(l0))
            },
            Option::None => spec_tokenize_with(vv, s.skip(1)),
        }
    }
}

/// Every position of `s` is consumed by a match: tokenization drops
/// nothing.  Texts outside this set are the known exceptions to the
/// round-trip laws.
pub open spec fn covers(vv: Seq<Seq<char>>, s: Seq<char>) -> bool
    decreases s.len(),
{
    if s.len() == 0 {
        true
    } else {
        match best_from(vv, s, 0) {
            Option::Some(p) => {
                let l0 = if 1 <= p.1 <= s.len() {
                    p.1
                } else {
                    1
                };
                covers(vv, s.skip(l0))
            },
            Option::None => false,
        }
    }
}

pub open spec fn all_valid(vv: Seq<Seq<char>>, tokens: Seq<u32>) -> bool {
    forall|k: int| 0 <= k < tokens.len() ==> ((#[trigger] tokens[k]) as int) < vv.len()
}

/// The words of the tokens, concatenated in order.
pub open spec fn concat_texts(vv: Seq<Seq<char>>, tokens: Seq<u32>) -> Seq<char>
    decreases tokens.len(),
{
    if tokens.len() == 0 {
        Seq::empty()
    } else {
        concat_texts(vv, tokens.drop_last()) + vv[tokens.last() as int]
    }
}

/// What a token sequence decodes to: the concatenated words when every
/// token is in range, the distinct fallback text otherwise.
pub open spec fn decode_with(vv: Seq<Seq<char>>, tokens: Seq<u32>) -> Seq<char> {
    if all_valid(vv, tokens) {
        concat_texts(vv, tokens)
    } else {
        "\u{FFFD}"@
    }
}

proof fn lemma_concat_append(vv: Seq<Seq<char>>, a: Seq<u32>, b: Seq<u32>)
    ensures
        concat_texts(vv, a + b) == concat_texts(vv, a) + concat_texts(vv, b),
    decreases b.len(),
{
    if b.len() == 0 {
        assert(a + b =~= a);
        assert(concat_texts(vv, a) + Seq::<char>::empty() =~= concat_texts(vv, a));
    } else {
        lemma_concat_append(vv, a, b.drop_last());
        assert((a + b).drop_last() =~= a + b.drop_last());
        assert((a + b).last() == b.last());
        assert((concat_texts(vv, a) + concat_texts(vv, b.drop_last())) + vv[b.last() as int]
            =~= concat_texts(vv, a) + (concat_texts(vv, b.drop_last()) + vv[b.last() as int]));
    }
}

/// Law: decoding what the tokenizer produced gives back exactly the text,
/// for any text the vocabulary covers; and every produced token is in
/// range.
pub proof fn lemma_decode_tokenize(vv: Seq<Seq<char>>, s: Seq<char>)
    requires
        vv.len() <= u32::MAX,
        covers(vv, s),
    ensures
        all_valid(vv, spec_tokenize_with(vv, s)),
        concat_texts(vv, spec_tokenize_with(vv, s)) == s,
        decode_with(vv, spec_tokenize_with(vv, s)) == s,
    decreases s.len(),
{
    if s.len() == 0 {
        assert(concat_texts(vv, spec_tokenize_with(vv, s)) =~= s);
    } else {
        lemma_best_valid(vv, s, 0);
        let p = best_from(vv, s, 0)->Some_0;
        let l = p.1;
        lemma_decode_tokenize(vv, s.skip(l));
        let head = seq![p.0 as u32];
        let rest = spec_tokenize_with(vv, s.skip(l));
        assert(spec_tokenize_with(vv, s) == head + rest);
        assert forall|k: int| 0 <= k < (head + rest).len() implies (((#[trigger] (head + rest)[k])
            as int) < vv.len()) by {
            if k == 0 {
                assert((head + rest)[0] == p.0 as u32);
            } else {
                assert((head + rest)[k] == rest[k - 1]);
            }
        }
        lemma_concat_append(vv, head, rest);
        assert(concat_texts(vv, head) =~= vv[p.0]) by {
            assert(head.drop_last() =~= Seq::<u32>::empty());
            assert(head.last() == p.0 as u32);
            assert(((p.0 as u32) as int) == p.0);
            assert(concat_texts(vv, head.drop_last()) == Seq::<char>::empty());
            assert(Seq::<char>::empty() + vv[p.0] =~= vv[p.0]);
        }
        assert(vv[p.0] == s.take(l));
        assert(s.take(l) + s.skip(l) =~= s);
    }
}

/// Law: a token sequence the tokenizer itself produced survives the round
/// trip — tokenizing its decoded text yields the same sequence.  Token
/// sequences not produced by tokenization are the known exception: two
/// tokens whose concatenated text contains a longer word re-tokenize
/// differently.
pub proof fn lemma_tokenize_round_trip(vv: Seq<Seq<char>>, s: Seq<char>)
    requires
        vv.len() <= u32::MAX,
        covers(vv, s),
    ensures
        spec_tokenize_with(vv, decode_with(vv, spec_tokenize_with(vv, s))) == spec_tokenize_with(
            vv,
            s,
        ),
{
    lemma_decode_tokenize(vv, s);
}

/// In-crate tokenizer over an explicit vocabulary table: token `i` is the
/// `i`-th word; tokenization is greedy longest match.
pub struct TableTokenizer {
    vocab: Vec<String>,
}

impl TableTokenizer {
    #[verifier::type_invariant]
    spec fn inv(&self) -> bool {
        self.vocab@.len() <= u32::MAX && forall|k: int|
            0 <= k < self.vocab@.len() ==> (#[trigger] self.vocab@[k])@.len() > 0
    }

    /// The vocabulary's texts, by token id.
    pub closed spec fn vocab_view(&self) -> Seq<Seq<char>> {
        self.vocab@.map_values(|w: String| w@)
    }

    /// Each word must be non-empty (a zero-length word could never make
    /// tokenization progress) and the table must fit the token range.
    pub fn new(vocab: Vec<String>) -> (r: TableTokenizer)
        requires
            vocab@.len() <= u32::MAX,
            forall|k: int| 0 <= k < vocab@.len() ==> (#[trigger] vocab@[k])@.len() > 0,
        ensures
            r.vocab_view() == vocab@.map_values(|w: String| w@),
    {
        TableTokenizer { vocab }
    }
}

impl Tokenizer for TableTokenizer {
    open spec fn spec_decode(&self, tokens: Seq<u32>) -> Seq<char> {
        decode_with(self.vocab_view(), tokens)
    }

    open spec fn spec_tokenize(&self, text: Seq<char>) -> Seq<u32> {
        spec_tokenize_with(self.vocab_view(), text)
    }

    fn tokens_to_string(&self, tokens: &[u32]) -> (r: String) {
        let ghost vv = self.vocab_view();
        let mut i: usize = 0;
        while i < tokens.len()
            invariant
                i <= tokens@.len(),
                vv == self.vocab_view(),
                vv.len() == self.vocab@.len(),
                forall|k: int| 0 <= k < i ==> ((#[trigger] tokens@[k]) as int) < vv.len(),
            decreases tokens@.len() - i,
        {
            if tokens[i] as usize >= self.vocab.len() {
                assert(!all_valid(vv, tokens@));
                return String::from_str("\u{FFFD}");
            }
            i = i + 1;
        }
        assert(all_valid(vv, tokens@));
        let mut out = String::new();
        let mut j: usize = 0;
        proof {
            assert(tokens@.take(0) =~= Seq::<u32>::empty());
        }
        while j < tokens.len()
            invariant
                j <= tokens@.len(),
                vv == self.vocab_view(),
                vv.len() == self.vocab@.len(),
                all_valid(vv, tokens@),
                out@ == concat_texts(vv, tokens@.take(j as int)),
            decreases tokens@.len() - j,
        {
            let t = tokens[j];
            proof {
                assert((tokens@[j as int] as int) < vv.len());
            }
            out.append(self.vocab[t as usize].as_str());
            proof {
                assert(tokens@.take(j + 1).drop_last() =~= tokens@.take(j as int));
                assert(tokens@.take(j + 1).last() == tokens@[j as int]);
                assert(vv[tokens@[j as int] as int] == self.vocab@[tokens@[j as int] as int]@);
            }
            j = j + 1;
        }
        proof {
            assert(tokens@.take(tokens@.len() as int) =~= tokens@);
        }
        out
    }

    fn tokenize(&self, text: &str) -> (r: Vec<u32>) {
        proof {
            use_type_invariant(self);
        }
        let ghost vv = self.vocab_view();
        proof {
            assert(vv.len() == self.vocab@.len());
        }
        let s_len = text.unicode_len();
        let mut out: Vec<u32> = Vec::new();
        let mut pos: usize = 0;
        proof {
            assert(text@.skip(0) =~= text@);
            assert(Seq::<u32>::empty() + spec_tokenize_with(vv, text@) =~= spec_tokenize_with(
                vv,
                text@,
            ));
        }
        while pos < s_len
            invariant
                pos <= s_len,
                s_len == text@.len(),
                vv == self.vocab_view(),
                vv.len() == self.vocab@.len(),
                vv.len() <= u32::MAX,
                forall|k: int| 0 <= k < vv.len() ==> (#[trigger] vv[k]).len() > 0,
                spec_tokenize_with(vv, text@) == out@ + spec_tokenize_with(vv, text@.skip(pos as int)),
            decreases s_len - pos,
        {
            let ghost tail = text@.skip(pos as int);
            proof {
                assert(tail.len() == s_len - pos);
            }
            let mut j: usize = 0;
            let mut cur_set = false;
            let mut cur_idx: usize = 0;
            let mut cur_len: usize = 0;
            proof {
                assert(combine(Option::None, best_from(vv, tail, 0)) == best_from(vv, tail, 0));
            }
            while j < self.vocab.len()
                invariant
                    j <= self.vocab@.len(),
                    vv == self.vocab_view(),
                    vv.len() == self.vocab@.len(),
                    pos <= s_len,
                    s_len == text@.len(),
                    tail == text@.skip(pos as int),
                    cur_set ==> cur_idx < vv.len() && cur_len == vv[cur_idx as int].len()
                        && word_ok(vv[cur_idx as int], tail),
                    combine(
                        if cur_set {
                            Option::Some((cur_idx as int, cur_len as int))
                        } else {
                            Option::None
                        },
                        best_from(vv, tail, j as int),
                    ) == best_from(vv, tail, 0),
                decreases self.vocab@.len() - j,
            {
                let ghost old_cur: Option<(int, int)> = if cur_set {
                    Option::Some((cur_idx as int, cur_len as int))
                } else {
                    Option::None
                };
                let w = &self.vocab[j];
                let wlen = w.unicode_len();
                proof {
                    assert(vv[j as int] == self.vocab@[j as int]@);
                }
                let mut matched = false;
                if wlen > 0 && wlen <= s_len - pos {
                    if match_at(text, pos, w.as_str()) {
                        matched = true;
                        proof {
                            assert(tail.take(wlen as int) =~= text@.subrange(
                                pos as int,
                                pos + wlen,
                            ));
                            assert(word_ok(vv[j as int], tail));
                        }
                    } else {
                        proof {
                            assert(tail.take(wlen as int) =~= text@.subrange(
                                pos as int,
                                pos + wlen,
                            ));
                            assert(!word_ok(vv[j as int], tail));
                        }
                    }
                } else {
                    proof {
                        assert(!word_ok(vv[j as int], tail));
                    }
                }
                if matched {
                    if !cur_set || wlen > cur_len {
                        cur_set = true;
                        cur_idx = j;
                        cur_len = wlen;
                    }
                }
                proof {
                    let new_cur: Option<(int, int)> = if cur_set {
                        Option::Some((cur_idx as int, cur_len as int))
                    } else {
                        Option::None
                    };
                    let here: Option<(int, int)> = if word_ok(vv[j as int], tail) {
                        Option::Some((j as int, vv[j as int].len() as int))
                    } else {
                        Option::None
                    };
                    assert(new_cur == combine(old_cur, here));
                    assert(best_from(vv, tail, j as int) == combine(
                        here,
                        best_from(vv, tail, j + 1),
                    ));
                    lemma_combine_assoc(old_cur, here, best_from(vv, tail, j + 1));
                }
                j = j + 1;
            }
            proof {
                assert(best_from(vv, tail, vv.len() as int) is None);
                assert(best_from(vv, tail, 0) == (if cur_set {
                    Option::Some((cur_idx as int, cur_len as int))
                } else {
                    Option::<(int, int)>::None
                }));
            }
            let ghost pre_out = out@;
            if cur_set {
                out.push(cur_idx as u32);
                proof {
                    assert(1 <= cur_len <= tail.len());
                    assert(tail.skip(cur_len as int) =~= text@.skip(pos + cur_len));
                    assert(spec_tokenize_with(vv, tail) == seq![cur_idx as u32]
                        + spec_tokenize_with(vv, text@.skip(pos + cur_len)));
                    assert(pre_out + (seq![cur_idx as u32] + spec_tokenize_with(
                        vv,
                        text@.skip(pos + cur_len),
                    )) =~= out@ + spec_tokenize_with(vv, text@.skip(pos + cur_len)));
                }
                pos = pos + cur_len;
            } else {
                proof {
                    assert(tail.skip(1) =~= text@.skip(pos + 1));
                    assert(spec_tokenize_with(vv, tail) == spec_tokenize_with(
                        vv,
                        text@.skip(pos + 1),
                    ));
                }
                pos = pos + 1;
            }
        }
        proof {
            assert(text@.skip(s_len as int).len() == 0);
            assert(out@ + Seq::<u32>::empty() =~= out@);
        }
        out
    }
}

} // verus!

