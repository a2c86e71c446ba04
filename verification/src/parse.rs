//! The parser: raw tokens to a sequence of values. Each token is trimmed and
//! classified in a fixed priority order — numeric literal, quoted string,
//! brace block (parsed recursively), variable reference, keyword — and a
//! token matching none of these forms is dropped without an error.

use vstd::prelude::*;

use crate::float::{digit_run, float_text, inf_text, infinity_text, is_digit_char, mantissa_text,
    nan_text, number_text, parse_bits, signless, spec_parse_float};
use crate::text::{chars_of, string_of};
use crate::float::fp_parse_value;
use crate::token::{flat_len, lemma_balanced_span_one_token, lemma_flat_len_elem,
    lemma_tok_run_concat, lemma_tokenize_len, spec_tokenize, tok_init, tok_run, tok_step,
    tokenize};
use crate::value::{lemma_vec_views_of, Instruction, SpecValue, Value};

verus! {

/// The characters that trimming removes at either end of a token: the
/// Unicode white-space code points.
pub open spec fn is_ws(c: char) -> bool {
    let u = c as u32;
    (0x09 <= u && u <= 0x0D) || u == 0x20 || u == 0x85 || u == 0xA0 || u == 0x1680 || (0x2000
        <= u && u <= 0x200A) || u == 0x2028 || u == 0x2029 || u == 0x202F || u == 0x205F || u
        == 0x3000
}

/// Whether a character is trimmed white space.
pub fn ws_char(c: char) -> (r: bool)
    ensures
        r == is_ws(c),
{
    let u = c as u32;
    (0x09 <= u && u <= 0x0D) || u == 0x20 || u == 0x85 || u == 0xA0 || u == 0x1680 || (0x2000
        <= u && u <= 0x200A) || u == 0x2028 || u == 0x2029 || u == 0x202F || u == 0x205F || u
        == 0x3000
}

/// A token with the white space at both ends removed.
pub open spec fn spec_trim(s: Seq<char>) -> Seq<char>
    decreases s.len(),
{
    if s.len() > 0 && is_ws(s[0]) {
        spec_trim(s.subrange(1, s.len() as int))
    } else if s.len() > 0 && is_ws(s.last()) {
        spec_trim(s.subrange(0, s.len() as int - 1))
    } else {
        s
    }
}

/// The keyword table: the exact spelling of each instruction.
pub open spec fn spec_keyword(t: Seq<char>) -> Option<Instruction> {
    if t == "add"@ {
        Some(Instruction::Add)
    } else if t == "sub"@ {
        Some(Instruction::Sub)
    } else if t == "mul"@ {
        Some(Instruction::Mul)
    } else if t == "div"@ {
        Some(Instruction::Div)
    } else if t == "mod"@ {
        Some(Instruction::Mod)
    } else if t == "pow"@ {
        Some(Instruction::Pow)
    } else if t == "concat"@ {
        Some(Instruction::Concat)
    } else if t == "print"@ {
        Some(Instruction::Print)
    } else if t == "input"@ {
        Some(Instruction::Input)
    } else if t == "equal"@ {
        Some(Instruction::Equal)
    } else if t == "less-than"@ {
        Some(Instruction::LessThan)
    } else if t == "greater-than"@ {
        Some(Instruction::GreaterThan)
    } else if t == "eval"@ {
        Some(Instruction::Eval)
    } else if t == "when"@ {
        Some(Instruction::When)
    } else if t == "if-else"@ {
        Some(Instruction::IfElse)
    } else if t == "while"@ {
        Some(Instruction::While)
    } else if t == "until"@ {
        Some(Instruction::Until)
    } else if t == "let"@ {
        Some(Instruction::Let)
    } else if t == "pop"@ {
        Some(Instruction::Pop)
    } else {
        None
    }
}

/// The values a single raw token contributes: at most one, none when the
/// token matches no form. A block token's inner text is tokenized and parsed
/// recursively.
pub open spec fn spec_classify(t: Seq<char>) -> Seq<SpecValue>
    decreases t.len(), 0int,
{
    let w = spec_trim(t);
    match spec_parse_float(w) {
        Some(b) => seq![SpecValue::Number(b)],
        None => {
            if w.len() >= 2 && w[0] == '"' && w.last() == '"' {
                seq![SpecValue::String(w.subrange(1, w.len() as int - 1))]
            } else if w.len() >= 2 && w[0] == '{' && w.last() == '}' {
                proof {
                    lemma_trim_len(t);
                    lemma_tokenize_len(w.subrange(1, w.len() as int - 1));
                }
                seq![
                    SpecValue::Block(
                        spec_parse_toks(spec_tokenize(w.subrange(1, w.len() as int - 1))),
                    ),
                ]
            } else if w.len() >= 1 && w[0] == '$' {
                seq![SpecValue::Variable(w.subrange(1, w.len() as int))]
            } else {
                match spec_keyword(w) {
                    Some(ins) => seq![SpecValue::Instruction(ins)],
                    None => Seq::empty(),
                }
            }
        },
    }
}

/// The values of a token sequence, in order.
pub open spec fn spec_parse_toks(toks: Seq<Seq<char>>) -> Seq<SpecValue>
    decreases flat_len(toks), toks.len(),
{
    if toks.len() == 0 {
        Seq::empty()
    } else {
        proof {
            lemma_flat_len_elem(toks, 0);
        }
        spec_classify(toks[0]) + spec_parse_toks(toks.subrange(1, toks.len() as int))
    }
}

/// The program a source text parses to.
pub open spec fn spec_parse(s: Seq<char>) -> Seq<SpecValue> {
    spec_parse_toks(spec_tokenize(s))
}

/// A text that opens with a brace is nothing the float parser accepts: it
/// has no sign to strip, spells none of the special words, and is no number.
proof fn lemma_brace_text_is_no_float(src: Seq<char>)
    requires
        src.len() >= 1,
        src[0] == '{',
    ensures
        !float_text(src),
{
    assert(signless(src) == src);
    assert(!is_digit_char('{'));
    assert forall|k: int| 1 <= k <= src.len() implies !digit_run(#[trigger] src.subrange(0, k)) by {
        assert(src.subrange(0, k)[0] == '{');
    }
    assert forall|k: int| 1 <= k < src.len() implies !mantissa_text(
        #[trigger] src.subrange(0, k),
    ) by {
        let sub = src.subrange(0, k);
        assert(sub[0] == '{');
        assert forall|k2: int| 1 <= k2 <= sub.len() implies !digit_run(
            #[trigger] sub.subrange(0, k2),
        ) by {
            assert(sub.subrange(0, k2) =~= src.subrange(0, k2));
        }
    }
    assert(!mantissa_text(src));
    assert(!number_text(src));
    assert(!inf_text(src) && !infinity_text(src) && !nan_text(src));
}

/// A whole brace-balanced span — it opens a brace, its depth stays positive
/// strictly inside, and the counter has returned to zero at its end — parses
/// to exactly one value: a block holding the parse of the inner text, nested
/// braces and internal whitespace included.
pub proof fn lemma_brace_span_parses_to_block(src: Seq<char>, inner: Seq<char>)
    requires
        src == seq!['{'] + inner + seq!['}'],
        forall|j: int| 1 <= j < src.len() ==> #[trigger] tok_run(tok_init(), src.take(j)).depth
            >= 1,
        tok_run(tok_init(), src).depth == 0,
    ensures
        spec_parse(src) == seq![SpecValue::Block(spec_parse(inner))],
{
    lemma_balanced_span_one_token(src);
    assert(spec_tokenize(src) == seq![src]);
    assert(src.len() == inner.len() + 2);
    assert(src[0] == '{');
    assert(src.last() == '}');
    // The span is one token, so the parse is its classification alone.
    assert(seq![src].subrange(1, 1) =~= Seq::<Seq<char>>::empty());
    assert(spec_parse_toks(Seq::<Seq<char>>::empty()) == Seq::<SpecValue>::empty());
    assert(spec_parse(src) == spec_classify(src) + Seq::<SpecValue>::empty());
    // Braces are not white space, so trimming leaves the token as it is.
    assert(!is_ws('{') && !is_ws('}'));
    assert(spec_trim(src) == src);
    // The float parser rejects it, and it is no quoted string, so the brace
    // branch of the classification applies.
    lemma_brace_text_is_no_float(src);
    assert(spec_parse_float(src) is None);
    assert(src.subrange(1, src.len() as int - 1) =~= inner);
    assert(spec_classify(src) == seq![SpecValue::Block(spec_parse(inner))]);
    assert(spec_parse(src) =~= seq![SpecValue::Block(spec_parse(inner))]);
}

/// Classifying tokens goes token by token: appending one token appends its
/// values.
pub proof fn lemma_parse_toks_push(toks: Seq<Seq<char>>, t: Seq<char>)
    ensures
        spec_parse_toks(toks.push(t)) == spec_parse_toks(toks) + spec_classify(t),
    decreases toks.len(),
{
    let p = toks.push(t);
    if toks.len() == 0 {
        assert(p.subrange(1, 1) =~= Seq::<Seq<char>>::empty());
        assert(p[0] == t);
        assert(spec_parse_toks(Seq::<Seq<char>>::empty()) == Seq::<SpecValue>::empty());
        assert(spec_parse_toks(p) == spec_classify(t) + Seq::<SpecValue>::empty());
        assert(spec_classify(t) + Seq::<SpecValue>::empty() =~= spec_parse_toks(toks)
            + spec_classify(t));
    } else {
        lemma_parse_toks_push(toks.subrange(1, toks.len() as int), t);
        assert(p.subrange(1, p.len() as int) =~= toks.subrange(1, toks.len() as int).push(t));
        assert(p[0] == toks[0]);
        assert(spec_parse_toks(p) == spec_classify(toks[0]) + spec_parse_toks(
            p.subrange(1, p.len() as int),
        ));
        assert(spec_classify(toks[0]) + (spec_parse_toks(toks.subrange(1, toks.len() as int))
            + spec_classify(t)) =~= (spec_classify(toks[0]) + spec_parse_toks(
            toks.subrange(1, toks.len() as int),
        )) + spec_classify(t));
    }
}

/// Nothing of a well-formed source is dropped at its end: when the depth
/// counter has returned to zero and no quote is left open, appending a
/// separator and one more token extends the parse by exactly that token's
/// value — here the numeral `5`.
pub proof fn lemma_well_formed_keeps_trailing_token(src: Seq<char>)
    requires
        tok_run(tok_init(), src).depth == 0,
        !tok_run(tok_init(), src).quoting,
    ensures
        spec_parse(src + seq![' ', '5']) == spec_parse(src) + seq![
            SpecValue::Number(fp_parse_value(seq!['5'])),
        ],
{
    let f = tok_run(tok_init(), src);
    let five = seq!['5'];
    lemma_tok_run_concat(tok_init(), src, seq![' ', '5']);
    assert(seq![' ', '5'].drop_last() =~= seq![' ']);
    assert(seq![' ', '5'].last() == '5');
    assert(seq![' '].drop_last() =~= Seq::<char>::empty());
    assert(tok_run(f, Seq::<char>::empty()) == f);
    assert(tok_run(f, seq![' ']) == tok_step(f, ' '));
    assert(tok_run(f, seq![' ', '5']) == tok_step(tok_step(f, ' '), '5'));
    // The separator emits the accumulated token exactly when the final rule
    // would have, so the tokens so far are the tokens of `src`.
    let g = tok_step(f, ' ');
    assert(g.toks == spec_tokenize(src));
    assert(g.cur =~= Seq::<char>::empty());
    // The digit accumulates, and the end of input emits it.
    let h = tok_step(g, '5');
    assert(h.cur =~= five);
    assert(spec_tokenize(src + seq![' ', '5']) == spec_tokenize(src).push(five));
    lemma_parse_toks_push(spec_tokenize(src), five);
    // The numeral classifies as a number: it is its own trimmed text, and
    // the float grammar accepts a digit run.
    assert(five[0] == '5');
    assert(!is_ws('5'));
    assert(spec_trim(five) == five);
    assert(digit_run(five.subrange(0, 1))) by {
        assert(five.subrange(0, 1) =~= five);
    }
    assert(signless(five) == five);
    assert(mantissa_text(five)) by {
        assert(digit_run(five.subrange(0, 1)));
    }
    assert(float_text(five));
    assert(spec_parse_float(five) == Some(fp_parse_value(five)));
    assert(spec_classify(five) == seq![SpecValue::Number(fp_parse_value(five))]);
    assert(spec_parse(src + seq![' ', '5']) =~= spec_parse(src) + seq![
        SpecValue::Number(fp_parse_value(five)),
    ]);
}

/// Trimming never lengthens a token.
pub proof fn lemma_trim_len(s: Seq<char>)
    ensures
        spec_trim(s).len() <= s.len(),
    decreases s.len(),
{
    if s.len() > 0 && is_ws(s[0]) {
        lemma_trim_len(s.subrange(1, s.len() as int));
    } else if s.len() > 0 && is_ws(s.last()) {
        lemma_trim_len(s.subrange(0, s.len() as int - 1));
    }
}

/// Trims the white space from both ends of a token.
pub fn trim(v: &Vec<char>) -> (r: Vec<char>)
    ensures
        r@ == spec_trim(v@),
        r@.len() <= v@.len(),
{
    let mut lo: usize = 0;
    let mut hi: usize = v.len();
    proof {
        assert(v@.subrange(0, v@.len() as int) =~= v@);
    }
    while lo < hi && ws_char(v[lo])
        invariant
            lo <= hi <= v@.len(),
            spec_trim(v@) == spec_trim(v@.subrange(lo as int, hi as int)),
        decreases hi - lo,
    {
        proof {
            let sub = v@.subrange(lo as int, hi as int);
            assert(sub.subrange(1, sub.len() as int) =~= v@.subrange(lo as int + 1, hi as int));
        }
        lo = lo + 1;
    }
    while hi > lo && ws_char(v[hi - 1])
        invariant
            lo <= hi <= v@.len(),
            spec_trim(v@) == spec_trim(v@.subrange(lo as int, hi as int)),
            lo == hi || !is_ws(v@[lo as int]),
        decreases hi,
    {
        proof {
            let sub = v@.subrange(lo as int, hi as int);
            assert(sub[0] == v@[lo as int]);
            assert(sub.last() == v@[hi as int - 1]);
            assert(sub.subrange(0, sub.len() as int - 1) =~= v@.subrange(
                lo as int,
                hi as int - 1,
            ));
        }
        hi = hi - 1;
    }
    let mut out: Vec<char> = Vec::new();
    let mut i: usize = lo;
    while i < hi
        invariant
            lo <= i <= hi <= v@.len(),
            out@ == v@.subrange(lo as int, i as int),
        decreases hi - i,
    {
        out.push(v[i]);
        proof {
            assert(out@ =~= v@.subrange(lo as int, i as int + 1));
        }
        i = i + 1;
    }
    proof {
        assert(out@ =~= v@.subrange(lo as int, hi as int));
        let sub = v@.subrange(lo as int, hi as int);
        if lo < hi {
            assert(sub[0] == v@[lo as int]);
            assert(sub.last() == v@[hi as int - 1]);
        }
        assert(spec_trim(sub) == sub);
    }
    out
}

/// Copies the characters of a range of a token.
fn copy_range(v: &Vec<char>, from: usize, to: usize) -> (r: Vec<char>)
    requires
        from <= to <= v@.len(),
    ensures
        r@ == v@.subrange(from as int, to as int),
{
    let mut out: Vec<char> = Vec::new();
    let mut i: usize = from;
    while i < to
        invariant
            from <= i <= to <= v@.len(),
            out@ == v@.subrange(from as int, i as int),
        decreases to - i,
    {
        out.push(v[i]);
        proof {
            assert(out@ =~= v@.subrange(from as int, i as int + 1));
        }
        i = i + 1;
    }
    out
}

/// The instruction a trimmed token spells, if any.
fn keyword_of(w: &Vec<char>) -> (r: Option<Instruction>)
    ensures
        r == spec_keyword(w@),
{
    let ts = string_of(w);
    if ts == "add".to_owned() {
        Some(Instruction::Add)
    } else if ts == "sub".to_owned() {
        Some(Instruction::Sub)
    } else if ts == "mul".to_owned() {
        Some(Instruction::Mul)
    } else if ts == "div".to_owned() {
        Some(Instruction::Div)
    } else if ts == "mod".to_owned() {
        Some(Instruction::Mod)
    } else if ts == "pow".to_owned() {
        Some(Instruction::Pow)
    } else if ts == "concat".to_owned() {
        Some(Instruction::Concat)
    } else if ts == "print".to_owned() {
        Some(Instruction::Print)
    } else if ts == "input".to_owned() {
        Some(Instruction::Input)
    } else if ts == "equal".to_owned() {
        Some(Instruction::Equal)
    } else if ts == "less-than".to_owned() {
        Some(Instruction::LessThan)
    } else if ts == "greater-than".to_owned() {
        Some(Instruction::GreaterThan)
    } else if ts == "eval".to_owned() {
        Some(Instruction::Eval)
    } else if ts == "when".to_owned() {
        Some(Instruction::When)
    } else if ts == "if-else".to_owned() {
        Some(Instruction::IfElse)
    } else if ts == "while".to_owned() {
        Some(Instruction::While)
    } else if ts == "until".to_owned() {
        Some(Instruction::Until)
    } else if ts == "let".to_owned() {
        Some(Instruction::Let)
    } else if ts == "pop".to_owned() {
        Some(Instruction::Pop)
    } else {
        None
    }
}

/// The values one raw token contributes to the program.
fn classify_token(t: &Vec<char>) -> (r: Vec<Value>)
    ensures
        r.deep_view() == spec_classify(t@),
    decreases t@.len(), 0int,
{
    let w = trim(t);
    let mut out: Vec<Value> = Vec::new();
    if let Some(b) = parse_bits(&w) {
        out.push(Value::Number(b));
    } else if w.len() >= 2 && w[0] == '"' && w[w.len() - 1] == '"' {
        let inner = copy_range(&w, 1, w.len() - 1);
        out.push(Value::String(string_of(&inner)));
    } else if w.len() >= 2 && w[0] == '{' && w[w.len() - 1] == '}' {
        let inner = copy_range(&w, 1, w.len() - 1);
        proof {
            lemma_tokenize_len(inner@);
        }
        let vals = parse_chars(&inner);
        proof {
            lemma_vec_views_of(vals);
        }
        out.push(Value::Block(vals));
    } else if w.len() >= 1 && w[0] == '$' {
        let name = copy_range(&w, 1, w.len());
        out.push(Value::Variable(string_of(&name)));
    } else if let Some(ins) = keyword_of(&w) {
        out.push(Value::Instruction(ins));
    }
    proof {
        assert(out.deep_view() =~~= spec_classify(t@));
    }
    out
}

/// Parses a character sequence: tokenize, then classify each token in order.
pub fn parse_chars(cs: &Vec<char>) -> (r: Vec<Value>)
    ensures
        r.deep_view() == spec_parse(cs@),
    decreases cs@.len(), 1int,
{
    let toks = tokenize(cs);
    proof {
        lemma_tokenize_len(cs@);
    }
    let mut out: Vec<Value> = Vec::new();
    let mut i: usize = 0;
    let ghost tv = toks.deep_view();
    proof {
        assert(tv.subrange(0, tv.len() as int) =~= tv);
        assert(out.deep_view() + spec_parse_toks(tv) =~= spec_parse_toks(tv));
    }
    while i < toks.len()
        invariant
            i <= toks.len(),
            tv == toks.deep_view(),
            tv == spec_tokenize(cs@),
            forall|j: int| 0 <= j < tv.len() ==> #[trigger] tv[j].len() <= cs@.len(),
            spec_parse(cs@) == out.deep_view() + spec_parse_toks(
                tv.subrange(i as int, tv.len() as int),
            ),
        decreases toks@.len() - i,
    {
        proof {
            assert(toks[i as int]@ == tv[i as int]);
        }
        let mut vals = classify_token(&toks[i]);
        let ghost old_out = out.deep_view();
        out.append(&mut vals);
        proof {
            let rest = tv.subrange(i as int, tv.len() as int);
            assert(rest[0] == tv[i as int]);
            assert(rest.subrange(1, rest.len() as int) =~= tv.subrange(
                i as int + 1,
                tv.len() as int,
            ));
            assert(out.deep_view() =~= old_out + spec_classify(tv[i as int]));
            assert(out.deep_view() + spec_parse_toks(tv.subrange(i as int + 1, tv.len() as int))
                =~= (old_out + spec_classify(tv[i as int])) + spec_parse_toks(
                tv.subrange(i as int + 1, tv.len() as int),
            ));
            assert((old_out + spec_classify(tv[i as int])) + spec_parse_toks(
                tv.subrange(i as int + 1, tv.len() as int),
            ) =~= old_out + (spec_classify(tv[i as int]) + spec_parse_toks(
                tv.subrange(i as int + 1, tv.len() as int),
            )));
        }
        i = i + 1;
    }
    proof {
        assert(tv.subrange(i as int, tv.len() as int) =~= Seq::<Seq<char>>::empty());
        assert(out.deep_view() =~= spec_parse(cs@));
    }
    out
}

/// Parses source text into a program: the sequence of values it denotes.
pub fn parse(source: &str) -> (r: Vec<Value>)
    ensures
        r.deep_view() == spec_parse(source@),
{
    let cs = chars_of(source);
    parse_chars(&cs)
}

} // verus!
