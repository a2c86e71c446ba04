//! The tokenizer: raw text to an ordered sequence of raw tokens. A running
//! depth counter keeps nested brace spans together, a quoting flag keeps
//! quoted spans together, and whitespace splits tokens only at depth zero
//! outside quotes. An unterminated span at the end of input is dropped.

use vstd::prelude::*;

verus! {

/// The tokenizer's running state: the token being accumulated, the brace
/// depth, the quoting flag, and the tokens emitted so far.
#[verifier::ext_equal]
pub struct TokState {
    pub cur: Seq<char>,
    pub depth: nat,
    pub quoting: bool,
    pub toks: Seq<Seq<char>>,
}

/// The characters that split tokens at depth zero outside quotes: space,
/// tab, newline, carriage return, and the full-width space (U+3000).
pub open spec fn is_break(c: char) -> bool {
    c == ' ' || c == '\t' || c == '\n' || c == '\r' || c as u32 == 0x3000
}

/// The state before any character has been read.
pub open spec fn tok_init() -> TokState {
    TokState { cur: Seq::empty(), depth: 0, quoting: false, toks: Seq::empty() }
}

/// One character of tokenization.
pub open spec fn tok_step(st: TokState, c: char) -> TokState {
    if c == '{' && !st.quoting {
        TokState { cur: st.cur.push(c), depth: st.depth + 1, ..st }
    } else if c == '}' && !st.quoting {
        if st.depth == 0 {
            st
        } else if st.depth == 1 {
            TokState {
                cur: Seq::empty(),
                depth: 0,
                toks: st.toks.push(st.cur.push(c)),
                ..st
            }
        } else {
            TokState { cur: st.cur.push(c), depth: (st.depth - 1) as nat, ..st }
        }
    } else if c == '"' {
        if st.depth == 0 {
            if st.quoting {
                TokState {
                    cur: Seq::empty(),
                    quoting: false,
                    toks: st.toks.push(st.cur.push(c)),
                    ..st
                }
            } else {
                TokState { cur: st.cur.push(c), quoting: true, ..st }
            }
        } else {
            TokState { cur: st.cur.push(c), ..st }
        }
    } else if is_break(c) {
        if st.depth != 0 || st.quoting {
            TokState { cur: st.cur.push(c), ..st }
        } else if st.cur.len() > 0 {
            TokState { cur: Seq::empty(), toks: st.toks.push(st.cur), ..st }
        } else {
            st
        }
    } else {
        TokState { cur: st.cur.push(c), ..st }
    }
}

/// The state after reading a whole character sequence.
pub open spec fn tok_run(st: TokState, s: Seq<char>) -> TokState
    decreases s.len(),
{
    if s.len() == 0 {
        st
    } else {
        tok_step(tok_run(st, s.drop_last()), s.last())
    }
}

/// The tokens of a character sequence: the tokens emitted while reading it,
/// and the accumulated token if it is terminated (no open brace span, no open
/// quote, not empty).
pub open spec fn spec_tokenize(s: Seq<char>) -> Seq<Seq<char>> {
    let f = tok_run(tok_init(), s);
    if f.depth == 0 && !f.quoting && f.cur.len() > 0 {
        f.toks.push(f.cur)
    } else {
        f.toks
    }
}

/// The total length of a token sequence.
pub open spec fn flat_len(toks: Seq<Seq<char>>) -> nat
    decreases toks.len(),
{
    if toks.len() == 0 {
        0
    } else {
        toks[0].len() + flat_len(toks.subrange(1, toks.len() as int))
    }
}

/// Appending a token adds its length to the total.
pub proof fn lemma_flat_len_push(toks: Seq<Seq<char>>, t: Seq<char>)
    ensures
        flat_len(toks.push(t)) == flat_len(toks) + t.len(),
    decreases toks.len(),
{
    let p = toks.push(t);
    assert(p.len() == toks.len() + 1);
    assert(flat_len(p) == p[0].len() + flat_len(p.subrange(1, p.len() as int)));
    if toks.len() == 0 {
        assert(p.subrange(1, 1) =~= Seq::<Seq<char>>::empty());
        assert(p[0] == t);
    } else {
        lemma_flat_len_push(toks.subrange(1, toks.len() as int), t);
        assert(p.subrange(1, p.len() as int) =~= toks.subrange(1, toks.len() as int).push(t));
        assert(p[0] == toks[0]);
    }
}

/// Every token's length is at most the total length.
pub proof fn lemma_flat_len_elem(toks: Seq<Seq<char>>, i: int)
    requires
        0 <= i < toks.len(),
    ensures
        toks[i].len() <= flat_len(toks),
    decreases toks.len(),
{
    if i > 0 {
        lemma_flat_len_elem(toks.subrange(1, toks.len() as int), i - 1);
    }
}

/// While tokenizing, the emitted tokens and the accumulated token together
/// never exceed the input read so far.
pub proof fn lemma_tok_run_len(s: Seq<char>)
    ensures
        flat_len(tok_run(tok_init(), s).toks) + tok_run(tok_init(), s).cur.len() <= s.len(),
    decreases s.len(),
{
    if s.len() > 0 {
        lemma_tok_run_len(s.drop_last());
        let st = tok_run(tok_init(), s.drop_last());
        let c = s.last();
        if c == '}' && !st.quoting && st.depth == 1 {
            lemma_flat_len_push(st.toks, st.cur.push(c));
        } else if c == '"' && st.depth == 0 && st.quoting {
            lemma_flat_len_push(st.toks, st.cur.push(c));
        } else if is_break(c) && !(c == '{' || c == '}' || c == '"') && st.depth == 0
            && !st.quoting && st.cur.len() > 0 {
            lemma_flat_len_push(st.toks, st.cur);
        }
    }
}

/// The tokens of a text are in total no longer than the text, and so is each
/// token alone.
pub proof fn lemma_tokenize_len(s: Seq<char>)
    ensures
        flat_len(spec_tokenize(s)) <= s.len(),
        forall|i: int|
            0 <= i < spec_tokenize(s).len() ==> #[trigger] spec_tokenize(s)[i].len() <= s.len(),
    decreases s.len(),
{
    lemma_tok_run_len(s);
    let f = tok_run(tok_init(), s);
    if f.depth == 0 && !f.quoting && f.cur.len() > 0 {
        lemma_flat_len_push(f.toks, f.cur);
    }
    assert forall|i: int| 0 <= i < spec_tokenize(s).len() implies #[trigger] spec_tokenize(
        s,
    )[i].len() <= s.len() by {
        lemma_flat_len_elem(spec_tokenize(s), i);
    }
}

/// Tokenization composes: reading a concatenation is reading the first part
/// and then the second from the state reached.
pub proof fn lemma_tok_run_concat(st: TokState, s: Seq<char>, t: Seq<char>)
    ensures
        tok_run(st, s + t) == tok_run(tok_run(st, s), t),
    decreases t.len(),
{
    if t.len() == 0 {
        assert(s + t =~= s);
        assert(tok_run(tok_run(st, s), t) == tok_run(st, s));
    } else {
        lemma_tok_run_concat(st, s, t.drop_last());
        assert((s + t).drop_last() =~= s + t.drop_last());
        assert((s + t).last() == t.last());
        assert(tok_run(st, s + t) == tok_step(tok_run(st, (s + t).drop_last()), t.last()));
        assert(tok_run(tok_run(st, s), t) == tok_step(
            tok_run(tok_run(st, s), t.drop_last()),
            t.last(),
        ));
    }
}

/// While reading a brace span whose depth stays positive strictly inside
/// it, the tokenizer only accumulates: after `i` characters the current
/// token is exactly the prefix read, nothing has been emitted, and no quote
/// is open.
proof fn lemma_balanced_prefix(s: Seq<char>, i: int)
    requires
        1 <= i < s.len(),
        forall|j: int| 1 <= j < s.len() ==> #[trigger] tok_run(tok_init(), s.take(j)).depth >= 1,
    ensures
        tok_run(tok_init(), s.take(i)).cur == s.take(i),
        !tok_run(tok_init(), s.take(i)).quoting,
        tok_run(tok_init(), s.take(i)).toks == Seq::<Seq<char>>::empty(),
    decreases i,
{
    if i == 1 {
        assert(s.take(1).drop_last() =~= Seq::<char>::empty());
        assert(s.take(1).last() == s[0]);
        assert(tok_run(tok_init(), Seq::<char>::empty()) == tok_init());
        assert(tok_run(tok_init(), s.take(1)) == tok_step(tok_init(), s[0]));
        assert(tok_run(tok_init(), s.take(1)).depth >= 1);
        assert(s[0] == '{');
        assert(tok_run(tok_init(), s.take(1)).cur =~= s.take(1));
    } else {
        lemma_balanced_prefix(s, i - 1);
        let st = tok_run(tok_init(), s.take(i - 1));
        let c = s[i - 1];
        assert(s.take(i).drop_last() =~= s.take(i - 1));
        assert(s.take(i).last() == c);
        assert(tok_run(tok_init(), s.take(i)) == tok_step(st, c));
        // The depth cannot return to zero strictly inside the span, so a
        // closing brace here keeps accumulating instead of emitting.
        assert(tok_run(tok_init(), s.take(i)).depth >= 1);
        assert(tok_run(tok_init(), s.take(i)).cur =~= s.take(i));
    }
}

/// A span with internally balanced nested braces — it opens a brace, its
/// depth stays positive strictly inside, and the depth counter has returned
/// to zero at its end — is emitted as exactly one token, the whole span.
pub proof fn lemma_balanced_span_one_token(s: Seq<char>)
    requires
        s.len() >= 2,
        forall|j: int| 1 <= j < s.len() ==> #[trigger] tok_run(tok_init(), s.take(j)).depth >= 1,
        tok_run(tok_init(), s).depth == 0,
    ensures
        spec_tokenize(s) == seq![s],
{
    lemma_balanced_prefix(s, s.len() as int - 1);
    let st = tok_run(tok_init(), s.take(s.len() as int - 1));
    let c = s.last();
    assert(s.take(s.len() as int).drop_last() =~= s.take(s.len() as int - 1));
    assert(s.take(s.len() as int) =~= s);
    assert(tok_run(tok_init(), s) == tok_step(st, c));
    // Only a closing brace at depth one brings the counter back to zero.
    assert(c == '}' && st.depth == 1);
    assert(st.cur.push(c) =~= s);
    assert(spec_tokenize(s) =~= seq![s]);
}

/// Tokenizes a character sequence.
pub fn tokenize(input: &Vec<char>) -> (toks: Vec<Vec<char>>)
    ensures
        toks.deep_view() == spec_tokenize(input@),
{
    let mut toks: Vec<Vec<char>> = Vec::new();
    let mut cur: Vec<char> = Vec::new();
    let mut depth: usize = 0;
    let mut quoting: bool = false;
    let mut i: usize = 0;
    while i < input.len()
        invariant
            i <= input@.len(),
            depth <= i,
            tok_run(tok_init(), input@.take(i as int)) == (TokState {
                cur: cur@,
                depth: depth as nat,
                quoting: quoting,
                toks: toks.deep_view(),
            }),
        decreases input@.len() - i,
    {
        let ghost pre = TokState {
            cur: cur@,
            depth: depth as nat,
            quoting: quoting,
            toks: toks.deep_view(),
        };
        let c = input[i];
        if c == '{' && !quoting {
            depth = depth + 1;
            cur.push(c);
        } else if c == '}' && !quoting {
            if depth != 0 {
                cur.push(c);
                depth = depth - 1;
                if depth == 0 {
                    toks.push(cur);
                    cur = Vec::new();
                }
            }
        } else if c == '"' {
            if depth == 0 {
                if quoting {
                    cur.push(c);
                    quoting = false;
                    toks.push(cur);
                    cur = Vec::new();
                } else {
                    quoting = true;
                    cur.push(c);
                }
            } else {
                cur.push(c);
            }
        } else if c == ' ' || c == '\t' || c == '\n' || c == '\r' || c as u32 == 0x3000 {
            if depth != 0 || quoting {
                cur.push(c);
            } else if cur.len() > 0 {
                toks.push(cur);
                cur = Vec::new();
            }
        } else {
            cur.push(c);
        }
        proof {
            assert(input@.take(i + 1).drop_last() =~= input@.take(i as int));
            assert(input@.take(i + 1).last() == input@[i as int]);
            let post = TokState {
                cur: cur@,
                depth: depth as nat,
                quoting: quoting,
                toks: toks.deep_view(),
            };
            assert(post =~~= tok_step(pre, input@[i as int]));
        }
        i = i + 1;
    }
    proof {
        assert(input@.take(input@.len() as int) =~= input@);
    }
    if depth == 0 && !quoting && cur.len() > 0 {
        toks.push(cur);
    }
    proof {
        assert(toks.deep_view() =~~= spec_tokenize(input@));
    }
    toks
}

} // verus!
