//! The runtime value model: a closed tagged union, together with its
//! mathematical shape and the total coercion accessors.

use vstd::prelude::*;

use crate::float::{fp_display, display_bits};

verus! {

/// The fixed opcode set of the language.
#[derive(Clone, Copy, Debug, PartialEq, Eq, Structural)]
pub enum Instruction {
    Add,
    Sub,
    Mul,
    Div,
    Mod,
    Pow,
    Concat,
    Print,
    Input,
    Equal,
    LessThan,
    GreaterThan,
    Eval,
    When,
    IfElse,
    While,
    Until,
    Let,
    Pop,
}

/// The single explicit error kind; it flows as an ordinary value.
#[derive(Clone, Copy, Debug, PartialEq, Eq, Structural)]
pub enum ErrorKind {
    StackEmpty,
}

/// A runtime value. A number carries the bit pattern of an IEEE 754 double,
/// since the verifier does not model floating point; every operation on it
/// goes through the named operations of `crate::float`.
#[derive(Debug, PartialEq)]
pub enum Value {
    Number(u64),
    String(String),
    Bool(bool),
    Variable(String),
    Instruction(Instruction),
    Block(Vec<Value>),
    Error(ErrorKind),
}

/// The mathematical shape of a `Value`: text as character sequences and
/// blocks as sequences of shapes.
pub enum SpecValue {
    Number(u64),
    String(Seq<char>),
    Bool(bool),
    Variable(Seq<char>),
    Instruction(Instruction),
    Block(Seq<SpecValue>),
    Error,
}

/// The shapes of the values of a sequence, element by element.
pub open spec fn views_of(s: Seq<Value>) -> Seq<SpecValue>
    decreases s,
{
    if s.len() == 0 {
        Seq::empty()
    } else {
        seq![s[0].deep_view()] + views_of(s.subrange(1, s.len() as int))
    }
}

impl DeepView for Value {
    type V = SpecValue;

    open spec fn deep_view(&self) -> SpecValue
        decreases self,
    {
        match self {
            Value::Number(b) => SpecValue::Number(*b),
            Value::String(s) => SpecValue::String(s@),
            Value::Bool(b) => SpecValue::Bool(*b),
            Value::Variable(s) => SpecValue::Variable(s@),
            Value::Instruction(i) => SpecValue::Instruction(*i),
            Value::Block(vs) => SpecValue::Block(views_of(vs@)),
            Value::Error(_) => SpecValue::Error,
        }
    }
}

/// `views_of` is the element-by-element image of the sequence, so it agrees
/// with the deep view of a vector.
pub proof fn lemma_views_of(s: Seq<Value>)
    ensures
        views_of(s).len() == s.len(),
        forall|i: int| 0 <= i < s.len() ==> views_of(s)[i] == s[i].deep_view(),
    decreases s.len(),
{
    if s.len() > 0 {
        let rest = s.subrange(1, s.len() as int);
        lemma_views_of(rest);
        assert(views_of(s) == seq![s[0].deep_view()] + views_of(rest));
        assert forall|i: int| 0 <= i < s.len() implies views_of(s)[i] == s[i].deep_view() by {
            if i >= 1 {
                assert(views_of(s)[i] == views_of(rest)[i - 1]);
                assert(rest[i - 1] == s[i]);
            }
        }
    }
}

/// The deep view of a vector of values is `views_of` its view.
pub proof fn lemma_vec_views_of(vs: Vec<Value>)
    ensures
        vs.deep_view() == views_of(vs@),
{
    lemma_views_of(vs@);
    assert(vs.deep_view() =~= views_of(vs@));
}

/// Coercion of a value to a number: the payload of a number, 0.0 (all bits
/// zero) for everything else.
pub open spec fn to_number(v: SpecValue) -> u64 {
    match v {
        SpecValue::Number(b) => b,
        _ => 0,
    }
}

/// Coercion of a value to text: the payload of a string or a variable
/// reference, the decimal text of a number, empty text for everything else.
pub open spec fn to_text(v: SpecValue) -> Seq<char> {
    match v {
        SpecValue::String(s) => s,
        SpecValue::Variable(s) => s,
        SpecValue::Number(b) => fp_display(b),
        _ => Seq::empty(),
    }
}

/// Coercion of a value to a boolean: the payload of a boolean, false for
/// everything else.
pub open spec fn to_bool(v: SpecValue) -> bool {
    match v {
        SpecValue::Bool(b) => b,
        _ => false,
    }
}

/// Coercion of a value to a block: the inner sequence of a block, the
/// one-element sequence holding the value itself for everything else.
pub open spec fn to_block(v: SpecValue) -> Seq<SpecValue> {
    match v {
        SpecValue::Block(b) => b,
        other => seq![other],
    }
}

impl Value {
    /// The number this value coerces to, as a bit pattern.
    pub fn get_number(&self) -> (r: u64)
        ensures
            r == to_number(self.deep_view()),
    {
        match self {
            Value::Number(n) => *n,
            _ => 0,
        }
    }

    /// The text this value coerces to.
    pub fn get_string(&self) -> (r: String)
        ensures
            r@ == to_text(self.deep_view()),
    {
        match self {
            Value::String(s) => s.clone(),
            Value::Variable(s) => s.clone(),
            Value::Number(n) => display_bits(*n),
            _ => String::new(),
        }
    }

    /// The boolean this value coerces to.
    pub fn get_bool(&self) -> (r: bool)
        ensures
            r == to_bool(self.deep_view()),
    {
        match self {
            Value::Bool(b) => *b,
            _ => false,
        }
    }

    /// The block this value coerces to.
    pub fn get_block(&self) -> (r: Vec<Value>)
        ensures
            r.deep_view() == to_block(self.deep_view()),
    {
        match self {
            Value::Block(b) => {
                let cloned = clone_values(b);
                proof {
                    lemma_vec_views_of(*b);
                    lemma_vec_views_of(cloned);
                }
                cloned
            },
            other => {
                let mut one: Vec<Value> = Vec::new();
                one.push(other.clone());
                proof {
                    assert(one.deep_view() =~= to_block(self.deep_view()));
                }
                one
            },
        }
    }
}

impl Clone for Value {
    /// A clone keeps the mathematical shape of the value.
    fn clone(&self) -> (res: Self)
        ensures
            res.deep_view() == self.deep_view(),
        decreases *self,
    {
        match self {
            Value::Number(b) => Value::Number(*b),
            Value::String(s) => Value::String(s.clone()),
            Value::Bool(b) => Value::Bool(*b),
            Value::Variable(s) => Value::Variable(s.clone()),
            Value::Instruction(i) => Value::Instruction(*i),
            Value::Block(vs) => {
                let cloned = clone_values(vs);
                proof {
                    lemma_vec_views_of(*vs);
                    lemma_vec_views_of(cloned);
                }
                Value::Block(cloned)
            },
            Value::Error(k) => Value::Error(*k),
        }
    }
}

/// Clones a value sequence element by element, keeping its shape.
pub fn clone_values(vs: &Vec<Value>) -> (res: Vec<Value>)
    ensures
        res.deep_view() == vs.deep_view(),
    decreases vs@,
{
    let mut out: Vec<Value> = Vec::new();
    let mut i: usize = 0;
    while i < vs.len()
        invariant
            i <= vs.len(),
            out.len() == i,
            forall|j: int| 0 <= j < i ==> out.deep_view()[j] == vs.deep_view()[j],
        decreases vs.len() - i,
    {
        proof {
            assert(decreases_to!(vs@ => vs@[i as int]));
        }
        out.push(vs[i].clone());
        i += 1;
    }
    proof {
        assert(out.deep_view() =~= vs.deep_view());
    }
    out
}

} // verus!
