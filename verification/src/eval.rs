//! The evaluator. A program is a sequence of values, executed strictly left
//! to right against the machine: literals are pushed, a variable reference is
//! resolved by value-copy (or pushed unchanged when unbound), and an
//! instruction pops its operands and pushes its result. Control flow runs
//! nested blocks by pushing frames onto an explicit work list, so the
//! machine's behaviour is one small-step relation, `step_to`, and evaluation
//! follows that relation exactly.
//!
//! A loop whose condition never flips does not terminate; the executable
//! evaluator therefore runs under an astronomically large step budget, and
//! its contract says which configurations it passed through while it ran.

use vstd::prelude::*;

use crate::float::{add_bits, div_bits, float_matches, fp_add, fp_div, fp_mul, fp_rem, fp_sub,
    gt_bits, ieee_lt, lt_bits, mul_bits, pow_bits, rem_bits, sub_bits};
use crate::machine::{mem_view, popped, top_val, Machine};
use crate::parse::spec_parse;
use crate::text::concat_strings;
use crate::value::{clone_values, to_block, to_bool, to_number, to_text, Instruction, SpecValue,
    Value};

verus! {

/// The step budget of one `eval` call: large enough that exhausting it is
/// out of reach in practice.
pub const FUEL: u128 = u128::MAX;

/// A frame of the evaluator's work list: a value sequence with the position
/// reached in it, or a pending loop test holding the condition block, the
/// body block, and the boolean on which the loop continues.
pub enum SpecFrame {
    Run(Seq<SpecValue>, int),
    Test(Seq<SpecValue>, Seq<SpecValue>, bool),
}

/// A whole configuration of the evaluator: the work list and the machine
/// state (operand stack, store, text printed so far).
#[verifier::ext_equal]
pub struct Config {
    pub ctrl: Seq<SpecFrame>,
    pub stack: Seq<SpecValue>,
    pub mem: Map<Seq<char>, SpecValue>,
    pub out: Seq<Seq<char>>,
}

impl Machine {
    /// The configuration formed by this machine under a given work list.
    pub open spec fn cfg(&self, ctrl: Seq<SpecFrame>) -> Config {
        Config {
            ctrl,
            stack: self.stack.deep_view(),
            mem: mem_view(self.memory@),
            out: self.printed.deep_view(),
        }
    }
}

/// The basic arithmetic instructions, whose results are pinned up to NaN
/// payload; `pow` is not among them, since nothing is promised of `powf`.
pub open spec fn is_arith(ins: Instruction) -> bool {
    ins == Instruction::Add || ins == Instruction::Sub || ins == Instruction::Mul || ins
        == Instruction::Div || ins == Instruction::Mod
}

/// The named result of a basic arithmetic instruction on two number bit
/// patterns, left operand first.
pub open spec fn arith_op(ins: Instruction, x: u64, y: u64) -> u64 {
    match ins {
        Instruction::Add => fp_add(x, y),
        Instruction::Sub => fp_sub(x, y),
        Instruction::Mul => fp_mul(x, y),
        Instruction::Div => fp_div(x, y),
        _ => fp_rem(x, y),
    }
}

/// What one instruction does to a configuration whose topmost frame has been
/// advanced, leaving the work list `adv`: the operands are popped right
/// first, then left, and the result is pushed. Only `input` leaves its
/// result unconstrained: it depends on the terminal.
pub open spec fn instr_step(a: Config, adv: Seq<SpecFrame>, ins: Instruction, b: Config) -> bool {
    let v1 = top_val(a.stack);
    let s1 = popped(a.stack);
    let v2 = top_val(s1);
    let s2 = popped(s1);
    let v3 = top_val(s2);
    let s3 = popped(s2);
    if is_arith(ins) {
        exists|r: u64|
            float_matches(r, arith_op(ins, to_number(v2), to_number(v1))) && b == Config {
                ctrl: adv,
                stack: s2.push(SpecValue::Number(r)),
                ..a
            }
    } else if ins == Instruction::Pow {
        exists|r: u64| b == Config { ctrl: adv, stack: s2.push(SpecValue::Number(r)), ..a }
    } else if ins == Instruction::Concat {
        b == Config { ctrl: adv, stack: s2.push(SpecValue::String(to_text(v2) + to_text(v1))), ..a }
    } else if ins == Instruction::Print {
        b == Config { ctrl: adv, stack: s1, out: a.out.push(to_text(v1)), ..a }
    } else if ins == Instruction::Input {
        exists|line: Seq<char>|
            b == Config { ctrl: adv, stack: a.stack.push(SpecValue::String(line)), ..a }
    } else if ins == Instruction::Equal {
        b == Config { ctrl: adv, stack: s2.push(SpecValue::Bool(to_text(v2) == to_text(v1))), ..a }
    } else if ins == Instruction::LessThan {
        b == Config {
            ctrl: adv,
            stack: s2.push(SpecValue::Bool(ieee_lt(to_number(v2), to_number(v1)))),
            ..a
        }
    } else if ins == Instruction::GreaterThan {
        b == Config {
            ctrl: adv,
            stack: s2.push(SpecValue::Bool(ieee_lt(to_number(v1), to_number(v2)))),
            ..a
        }
    } else if ins == Instruction::Eval {
        b == Config { ctrl: adv.push(SpecFrame::Run(to_block(v1), 0)), stack: s1, ..a }
    } else if ins == Instruction::When {
        b == Config {
            ctrl: if to_bool(v2) {
                adv.push(SpecFrame::Run(to_block(v1), 0))
            } else {
                adv
            },
            stack: s2,
            ..a
        }
    } else if ins == Instruction::IfElse {
        b == Config {
            ctrl: adv.push(
                SpecFrame::Run(
                    if to_bool(v3) {
                        to_block(v2)
                    } else {
                        to_block(v1)
                    },
                    0,
                ),
            ),
            stack: s3,
            ..a
        }
    } else if ins == Instruction::While {
        b == Config {
            ctrl: adv.push(SpecFrame::Test(to_block(v2), to_block(v1), true)).push(
                SpecFrame::Run(to_block(v2), 0),
            ),
            stack: s2,
            ..a
        }
    } else if ins == Instruction::Until {
        b == Config {
            ctrl: adv.push(SpecFrame::Test(to_block(v2), to_block(v1), false)).push(
                SpecFrame::Run(to_block(v2), 0),
            ),
            stack: s2,
            ..a
        }
    } else if ins == Instruction::Let {
        b == Config { ctrl: adv, stack: s2, mem: a.mem.insert(to_text(v1), v2), ..a }
    } else {
        b == Config { ctrl: adv, stack: popped(a.stack), ..a }
    }
}

/// One small step of the evaluator: the topmost frame acts. An exhausted
/// run frame is dropped; the next value of a running sequence is executed; a
/// loop test pops the condition's result and either schedules body,
/// condition and test again, or leaves the loop.
pub open spec fn step_to(a: Config, b: Config) -> bool {
    a.ctrl.len() > 0 && {
        let rest = a.ctrl.drop_last();
        match a.ctrl.last() {
            SpecFrame::Run(prog, i) => {
                if i < 0 || i >= prog.len() {
                    b == Config { ctrl: rest, ..a }
                } else {
                    let adv = rest.push(SpecFrame::Run(prog, i + 1));
                    match prog[i] {
                        SpecValue::Instruction(ins) => instr_step(a, adv, ins, b),
                        SpecValue::Variable(name) => b == Config {
                            ctrl: adv,
                            stack: a.stack.push(
                                if a.mem.contains_key(name) {
                                    a.mem[name]
                                } else {
                                    SpecValue::Variable(name)
                                },
                            ),
                            ..a
                        },
                        other => b == Config { ctrl: adv, stack: a.stack.push(other), ..a },
                    }
                }
            },
            SpecFrame::Test(cond, body, keep) => {
                let v = top_val(a.stack);
                let s1 = popped(a.stack);
                if to_bool(v) == keep {
                    b == Config {
                        ctrl: rest.push(SpecFrame::Test(cond, body, keep)).push(
                            SpecFrame::Run(cond, 0),
                        ).push(SpecFrame::Run(body, 0)),
                        stack: s1,
                        ..a
                    }
                } else {
                    b == Config { ctrl: rest, stack: s1, ..a }
                }
            },
        }
    }
}

/// `b` is reachable from `a` in exactly `n` small steps.
pub open spec fn reaches(a: Config, b: Config, n: nat) -> bool
    decreases n,
{
    if n == 0 {
        a == b
    } else {
        exists|m: Config| reaches(a, m, (n - 1) as nat) && step_to(m, b)
    }
}

/// One more step extends a reachable chain by one.
pub proof fn lemma_reaches_extend(a: Config, m: Config, b: Config, n: nat)
    requires
        reaches(a, m, n),
        step_to(m, b),
    ensures
        reaches(a, b, n + 1),
{
    assert(reaches(a, m, (n + 1 - 1) as nat));
}

/// A value that the evaluator pushes as it stands: neither an instruction
/// nor a variable reference.
pub open spec fn is_literal(v: SpecValue) -> bool {
    match v {
        SpecValue::Instruction(_) => false,
        SpecValue::Variable(_) => false,
        _ => true,
    }
}

/// A program of literals alone.
pub open spec fn all_literals(s: Seq<SpecValue>) -> bool {
    forall|i: int| 0 <= i < s.len() ==> is_literal(#[trigger] s[i])
}

/// Round trip: a source text that parses to a single bare literal — a
/// number, a string, or any other value that is neither an instruction nor a
/// variable reference — evaluates to exactly that literal pushed on top of
/// the stack, with the store and the printed text unchanged.
pub proof fn lemma_literal_round_trip(src: Seq<char>, v: SpecValue, c: Config)
    requires
        spec_parse(src) == seq![v],
        is_literal(v),
        c.ctrl == seq![SpecFrame::Run(spec_parse(src), 0)],
    ensures
        reaches(c, (Config { ctrl: Seq::empty(), stack: c.stack.push(v), ..c }), 2),
{
    let pv = spec_parse(src);
    let m = Config { ctrl: seq![SpecFrame::Run(pv, 1)], stack: c.stack.push(v), ..c };
    let d = Config { ctrl: Seq::empty(), stack: c.stack.push(v), ..c };
    assert(c.ctrl.drop_last() =~= Seq::<SpecFrame>::empty());
    assert(m.ctrl =~= c.ctrl.drop_last().push(SpecFrame::Run(pv, 1)));
    assert(step_to(c, m));
    assert(m.ctrl.drop_last() =~= Seq::<SpecFrame>::empty());
    assert(d =~~= (Config { ctrl: m.ctrl.drop_last(), ..m }));
    assert(step_to(m, d));
    assert(reaches(c, c, 0));
    lemma_reaches_extend(c, c, m, 0);
    lemma_reaches_extend(c, m, d, 1);
}

/// An arithmetic instruction on an empty stack does not abort: popping the
/// empty stack yields the error value, whose number coercion is 0.0 (all
/// bits zero), so `add` leaves the sum of two zero coercions on the stack.
pub proof fn lemma_add_on_empty_stack(c: Config, r: u64)
    requires
        c.ctrl == seq![SpecFrame::Run(seq![SpecValue::Instruction(Instruction::Add)], 0)],
        c.stack.len() == 0,
        float_matches(r, fp_add(0, 0)),
    ensures
        reaches(
            c,
            (Config { ctrl: Seq::empty(), stack: seq![SpecValue::Number(r)], ..c }),
            2,
        ),
{
    let pv = seq![SpecValue::Instruction(Instruction::Add)];
    let st = seq![SpecValue::Number(r)];
    let m = Config { ctrl: seq![SpecFrame::Run(pv, 1)], stack: st, ..c };
    let d = Config { ctrl: Seq::empty(), stack: st, ..c };
    assert(c.ctrl.drop_last() =~= Seq::<SpecFrame>::empty());
    assert(m.ctrl =~= c.ctrl.drop_last().push(SpecFrame::Run(pv, 1)));
    assert(popped(popped(c.stack)).push(SpecValue::Number(r)) =~= st);
    assert(float_matches(r, arith_op(Instruction::Add, 0, 0)));
    assert(instr_step(c, m.ctrl, Instruction::Add, m));
    assert(step_to(c, m));
    assert(m.ctrl.drop_last() =~= Seq::<SpecFrame>::empty());
    assert(d =~~= (Config { ctrl: m.ctrl.drop_last(), ..m }));
    assert(step_to(m, d));
    assert(reaches(c, c, 0));
    lemma_reaches_extend(c, c, m, 0);
    lemma_reaches_extend(c, m, d, 1);
}

/// Rebinding replaces: binding a name and then binding it again leaves the
/// store exactly as if only the second binding had been made — no history
/// is kept.
pub proof fn lemma_rebind_replaces(
    m: Map<Seq<char>, SpecValue>,
    name: Seq<char>,
    first: SpecValue,
    second: SpecValue,
)
    ensures
        m.insert(name, first).insert(name, second) == m.insert(name, second),
{
    assert(m.insert(name, first).insert(name, second) =~= m.insert(name, second));
}

/// A frame of the evaluator's executable work list.
pub enum Frame {
    Run(Vec<Value>, usize),
    Test(Vec<Value>, Vec<Value>, bool),
}

impl DeepView for Frame {
    type V = SpecFrame;

    open spec fn deep_view(&self) -> SpecFrame {
        match self {
            Frame::Run(p, i) => SpecFrame::Run(p.deep_view(), *i as int),
            Frame::Test(c, b, k) => SpecFrame::Test(c.deep_view(), b.deep_view(), *k),
        }
    }
}

/// Relies on rustyline's `DefaultEditor::new` and `Editor::readline`: reads
/// one line from the interactive input. What comes back depends on the
/// terminal, so nothing is promised of it; on a read error the line is empty.
#[verifier::external_body]
fn read_line() -> (r: String) {
    match rustyline::DefaultEditor::new() {
        Ok(mut ed) => match ed.readline("") {
            Ok(line) => line,
            Err(_) => String::new(),
        },
        Err(_) => String::new(),
    }
}

impl Machine {
    /// Evaluates a program against this machine. The evaluation follows
    /// `step_to` exactly: the final machine is reachable from the initial
    /// one, and the work list was run to empty unless the step budget — out
    /// of reach in practice — ran out first. A program of literals alone is
    /// appended to the stack and changes nothing else.
    #[verifier::rlimit(100)]
    pub fn eval(&mut self, program: Vec<Value>)
        requires
            old(self).wf(),
        ensures
            final(self).wf(),
            exists|n: nat, left: Seq<SpecFrame>|
                reaches(
                    old(self).cfg(seq![SpecFrame::Run(program.deep_view(), 0)]),
                    final(self).cfg(left),
                    n,
                ) && (left.len() == 0 || n == FUEL),
            all_literals(program.deep_view()) ==> final(self).stack.deep_view() == old(
                self,
            ).stack.deep_view() + program.deep_view() && final(self).memory == old(self).memory
                && final(self).printed == old(self).printed,
    {
        let ghost pv = program.deep_view();
        let ghost old_stack = self.stack.deep_view();
        let ghost old_mem = self.memory;
        let ghost old_printed = self.printed;
        let plen: usize = program.len();
        let mut ctrl: Vec<Frame> = Vec::new();
        ctrl.push(Frame::Run(program, 0));
        proof {
            assert(pv.len() == plen as int);
            assert(ctrl.deep_view() =~= seq![SpecFrame::Run(pv, 0)]);
            assert(old_stack + pv.subrange(0, 0) =~= old_stack);
        }
        let ghost init = self.cfg(ctrl.deep_view());
        let mut fuel: u128 = FUEL;
        let ghost mut steps: nat = 0;
        while ctrl.len() != 0 && fuel != 0
            invariant
                self.wf(),
                steps + fuel == FUEL,
                pv.len() < FUEL,
                reaches(init, self.cfg(ctrl.deep_view()), steps),
                all_literals(pv) ==> self.memory == old_mem && self.printed == old_printed && (
                (exists|i: int|
                    0 <= i <= pv.len() && ctrl.deep_view() == seq![SpecFrame::Run(pv, i)]
                        && self.stack.deep_view() == old_stack + pv.subrange(0, i) && steps == i)
                    || (ctrl.deep_view().len() == 0 && self.stack.deep_view() == old_stack + pv
                    && steps == pv.len() + 1)),
            decreases fuel,
        {
            let ghost prev = self.cfg(ctrl.deep_view());
            let ghost cv_pre = ctrl.deep_view();
            let ghost pre_stack = self.stack.deep_view();
            let ghost pre_steps = steps;
            let fr = ctrl.pop().unwrap();
            proof {
                assert(cv_pre.last() == fr.deep_view());
                assert(ctrl.deep_view() =~= cv_pre.drop_last());
            }
            match fr {
                Frame::Run(prog, i) => {
                    let ghost progv = prog.deep_view();
                    proof {
                        assert(progv.len() == prog@.len());
                    }
                    if i >= prog.len() {
                        proof {
                            assert(self.cfg(ctrl.deep_view()) =~~= (Config {
                                ctrl: cv_pre.drop_last(),
                                ..prev
                            }));
                            assert(step_to(prev, self.cfg(ctrl.deep_view())));
                        }
                    } else {
                        let v = prog[i].clone();
                        proof {
                            assert(progv[i as int] == prog@[i as int].deep_view());
                            assert(v.deep_view() == progv[i as int]);
                        }
                        ctrl.push(Frame::Run(prog, i + 1));
                        let ghost adv = cv_pre.drop_last().push(SpecFrame::Run(progv, i + 1));
                        proof {
                            assert(ctrl.deep_view() =~= adv);
                        }
                        match v {
                            Value::Instruction(ins) => {
                                self.exec_instr(ins, &mut ctrl);
                                proof {
                                    assert(step_to(prev, self.cfg(ctrl.deep_view())));
                                }
                            },
                            Value::Variable(name) => {
                                let ghost nv = name@;
                                match self.lookup(&name) {
                                    Some(val) => {
                                        self.push_value(val);
                                    },
                                    None => {
                                        self.push_value(Value::Variable(name));
                                    },
                                }
                                proof {
                                    assert(progv[i as int] == SpecValue::Variable(nv));
                                    assert(step_to(prev, self.cfg(ctrl.deep_view())));
                                }
                            },
                            other => {
                                self.push_value(other);
                                proof {
                                    assert(step_to(prev, self.cfg(ctrl.deep_view())));
                                }
                            },
                        }
                    }
                },
                Frame::Test(cond, body, keep) => {
                    let ghost condv = cond.deep_view();
                    let ghost bodyv = body.deep_view();
                    let tested = self.pop().get_bool();
                    if tested == keep {
                        let cond2 = clone_values(&cond);
                        let body2 = clone_values(&body);
                        ctrl.push(Frame::Test(cond, body, keep));
                        ctrl.push(Frame::Run(cond2, 0));
                        ctrl.push(Frame::Run(body2, 0));
                        proof {
                            assert(ctrl.deep_view() =~= cv_pre.drop_last().push(
                                SpecFrame::Test(condv, bodyv, keep),
                            ).push(SpecFrame::Run(condv, 0)).push(SpecFrame::Run(bodyv, 0)));
                        }
                    }
                    proof {
                        assert(step_to(prev, self.cfg(ctrl.deep_view())));
                    }
                },
            }
            proof {
                lemma_reaches_extend(init, prev, self.cfg(ctrl.deep_view()), steps);
                steps = steps + 1;
                if all_literals(pv) {
                    let gi = choose|i: int|
                        0 <= i <= pv.len() && cv_pre == seq![SpecFrame::Run(pv, i)] && pre_stack
                            == old_stack + pv.subrange(0, i) && pre_steps == i;
                    assert(cv_pre.last() == SpecFrame::Run(pv, gi));
                    if gi < pv.len() {
                        assert(is_literal(pv[gi]));
                        assert(ctrl.deep_view() =~= seq![SpecFrame::Run(pv, gi + 1)]);
                        assert(self.stack.deep_view() =~= old_stack + pv.subrange(0, gi + 1));
                    } else {
                        assert(ctrl.deep_view().len() == 0);
                        assert(pv.subrange(0, gi) =~= pv);
                    }
                }
            }
            fuel = fuel - 1;
        }
        proof {
            if all_literals(pv) {
                assert(ctrl.deep_view().len() == 0);
            }
            assert(reaches(init, self.cfg(ctrl.deep_view()), steps) && (ctrl.deep_view().len()
                == 0 || steps == FUEL));
        }
    }

    /// Executes one instruction: pops its operands, pushes its result, and
    /// schedules any block it runs.
    fn exec_instr(&mut self, ins: Instruction, ctrl: &mut Vec<Frame>)
        requires
            old(self).wf(),
        ensures
            final(self).wf(),
            instr_step(
                old(self).cfg(old(ctrl).deep_view()),
                old(ctrl).deep_view(),
                ins,
                final(self).cfg(final(ctrl).deep_view()),
            ),
    {
        let ghost a = old(self).cfg(old(ctrl).deep_view());
        match ins {
            Instruction::Add => {
                let y = self.pop().get_number();
                let x = self.pop().get_number();
                let r = add_bits(x, y);
                self.push_value(Value::Number(r));
                proof {
                    assert(float_matches(r, arith_op(Instruction::Add, x, y)));
                }
            },
            Instruction::Sub => {
                let y = self.pop().get_number();
                let x = self.pop().get_number();
                let r = sub_bits(x, y);
                self.push_value(Value::Number(r));
                proof {
                    assert(float_matches(r, arith_op(Instruction::Sub, x, y)));
                }
            },
            Instruction::Mul => {
                let y = self.pop().get_number();
                let x = self.pop().get_number();
                let r = mul_bits(x, y);
                self.push_value(Value::Number(r));
                proof {
                    assert(float_matches(r, arith_op(Instruction::Mul, x, y)));
                }
            },
            Instruction::Div => {
                let y = self.pop().get_number();
                let x = self.pop().get_number();
                let r = div_bits(x, y);
                self.push_value(Value::Number(r));
                proof {
                    assert(float_matches(r, arith_op(Instruction::Div, x, y)));
                }
            },
            Instruction::Mod => {
                let y = self.pop().get_number();
                let x = self.pop().get_number();
                let r = rem_bits(x, y);
                self.push_value(Value::Number(r));
                proof {
                    assert(float_matches(r, arith_op(Instruction::Mod, x, y)));
                }
            },
            Instruction::Pow => {
                let y = self.pop().get_number();
                let x = self.pop().get_number();
                let r = pow_bits(x, y);
                self.push_value(Value::Number(r));
                proof {
                    assert(self.cfg(ctrl.deep_view()) == (Config {
                        ctrl: old(ctrl).deep_view(),
                        stack: popped(popped(a.stack)).push(SpecValue::Number(r)),
                        ..a
                    }));
                }
            },
            Instruction::Concat => {
                let y = self.pop().get_string();
                let x = self.pop().get_string();
                self.push_value(Value::String(concat_strings(&x, &y)));
            },
            Instruction::Print => {
                let x = self.pop().get_string();
                self.print_text(x);
            },
            Instruction::Input => {
                let line = read_line();
                let ghost lv = line@;
                self.push_value(Value::String(line));
                proof {
                    assert(self.cfg(ctrl.deep_view()) == (Config {
                        stack: a.stack.push(SpecValue::String(lv)),
                        ..a
                    }));
                }
            },
            Instruction::Equal => {
                let y = self.pop().get_string();
                let x = self.pop().get_string();
                self.push_value(Value::Bool(x == y));
            },
            Instruction::LessThan => {
                let y = self.pop().get_number();
                let x = self.pop().get_number();
                self.push_value(Value::Bool(lt_bits(x, y)));
            },
            Instruction::GreaterThan => {
                let y = self.pop().get_number();
                let x = self.pop().get_number();
                self.push_value(Value::Bool(gt_bits(x, y)));
            },
            Instruction::Eval => {
                let code = self.pop().get_block();
                let ghost cv = code.deep_view();
                ctrl.push(Frame::Run(code, 0));
                proof {
                    assert(ctrl.deep_view() =~= a.ctrl.push(SpecFrame::Run(cv, 0)));
                }
            },
            Instruction::When => {
                let code = self.pop().get_block();
                let ghost cv = code.deep_view();
                let condition = self.pop().get_bool();
                if condition {
                    ctrl.push(Frame::Run(code, 0));
                    proof {
                        assert(ctrl.deep_view() =~= a.ctrl.push(SpecFrame::Run(cv, 0)));
                    }
                }
            },
            Instruction::IfElse => {
                let code_false = self.pop().get_block();
                let code_true = self.pop().get_block();
                let ghost cfv = code_false.deep_view();
                let ghost ctv = code_true.deep_view();
                let condition = self.pop().get_bool();
                if condition {
                    ctrl.push(Frame::Run(code_true, 0));
                    proof {
                        assert(ctrl.deep_view() =~= a.ctrl.push(SpecFrame::Run(ctv, 0)));
                    }
                } else {
                    ctrl.push(Frame::Run(code_false, 0));
                    proof {
                        assert(ctrl.deep_view() =~= a.ctrl.push(SpecFrame::Run(cfv, 0)));
                    }
                }
            },
            Instruction::While => {
                let code = self.pop().get_block();
                let condition = self.pop().get_block();
                let ghost bv = code.deep_view();
                let ghost cv = condition.deep_view();
                let cond2 = clone_values(&condition);
                ctrl.push(Frame::Test(condition, code, true));
                ctrl.push(Frame::Run(cond2, 0));
                proof {
                    assert(ctrl.deep_view() =~= a.ctrl.push(SpecFrame::Test(cv, bv, true)).push(
                        SpecFrame::Run(cv, 0),
                    ));
                }
            },
            Instruction::Until => {
                let code = self.pop().get_block();
                let condition = self.pop().get_block();
                let ghost bv = code.deep_view();
                let ghost cv = condition.deep_view();
                let cond2 = clone_values(&condition);
                ctrl.push(Frame::Test(condition, code, false));
                ctrl.push(Frame::Run(cond2, 0));
                proof {
                    assert(ctrl.deep_view() =~= a.ctrl.push(SpecFrame::Test(cv, bv, false)).push(
                        SpecFrame::Run(cv, 0),
                    ));
                }
            },
            Instruction::Let => {
                let name = self.pop().get_string();
                let value = self.pop();
                self.store(name, value);
            },
            Instruction::Pop => {
                let _ = self.stack.pop();
                proof {
                    assert(self.stack.deep_view() =~= popped(a.stack));
                }
            },
        }
    }
}

} // verus!
