//! The machine: the operand stack, the global variable store, and the text
//! printed so far. Popping an empty stack yields the error value rather than
//! aborting; storing under an existing name overwrites the old binding.

use vstd::prelude::*;

use crate::value::{ErrorKind, SpecValue, Value};

verus! {

/// The store viewed as a map from names to value shapes; a later binding for
/// the same name wins.
pub open spec fn mem_view(entries: Seq<(String, Value)>) -> Map<Seq<char>, SpecValue>
    decreases entries.len(),
{
    if entries.len() == 0 {
        Map::empty()
    } else {
        mem_view(entries.drop_last()).insert(
            entries.last().0@,
            entries.last().1.deep_view(),
        )
    }
}

/// The value on top of a stack; the error value when the stack is empty.
pub open spec fn top_val(s: Seq<SpecValue>) -> SpecValue {
    if s.len() == 0 {
        SpecValue::Error
    } else {
        s.last()
    }
}

/// A stack with its top removed; an empty stack is left as it is.
pub open spec fn popped(s: Seq<SpecValue>) -> Seq<SpecValue> {
    if s.len() == 0 {
        s
    } else {
        s.drop_last()
    }
}

/// The machine state: an operand stack, a flat global store, and the text
/// printed so far (one entry per print).
#[derive(Debug)]
pub struct Machine {
    pub stack: Vec<Value>,
    pub memory: Vec<(String, Value)>,
    pub printed: Vec<String>,
}

impl Machine {
    /// The store holds at most one binding per name.
    pub open spec fn wf(&self) -> bool {
        forall|i: int, j: int|
            0 <= i < j < self.memory@.len() ==> self.memory@[i].0@ != self.memory@[j].0@
    }

    /// A fresh machine: empty stack, empty store, nothing printed.
    pub fn new() -> (m: Machine)
        ensures
            m.wf(),
            m.stack.deep_view() == Seq::<SpecValue>::empty(),
            mem_view(m.memory@) == Map::<Seq<char>, SpecValue>::empty(),
            m.printed.deep_view() == Seq::<Seq<char>>::empty(),
    {
        let m = Machine { stack: Vec::new(), memory: Vec::new(), printed: Vec::new() };
        proof {
            assert(m.stack.deep_view() =~= Seq::<SpecValue>::empty());
            assert(m.printed.deep_view() =~= Seq::<Seq<char>>::empty());
        }
        m
    }

    /// Pops the operand stack; yields the error value, not an abort, when the
    /// stack is empty.
    pub fn pop(&mut self) -> (r: Value)
        ensures
            r.deep_view() == top_val(old(self).stack.deep_view()),
            final(self).stack.deep_view() == popped(old(self).stack.deep_view()),
            final(self).memory == old(self).memory,
            final(self).printed == old(self).printed,
    {
        let r = match self.stack.pop() {
            Some(v) => v,
            None => Value::Error(ErrorKind::StackEmpty),
        };
        proof {
            assert(self.stack.deep_view() =~= popped(old(self).stack.deep_view()));
        }
        r
    }

    /// Pushes a value onto the operand stack.
    pub fn push_value(&mut self, v: Value)
        ensures
            final(self).stack.deep_view() == old(self).stack.deep_view().push(v.deep_view()),
            final(self).memory == old(self).memory,
            final(self).printed == old(self).printed,
    {
        let ghost vv = v.deep_view();
        self.stack.push(v);
        proof {
            assert(self.stack.deep_view() =~= old(self).stack.deep_view().push(vv));
        }
    }

    /// Records one printed chunk of text.
    pub fn print_text(&mut self, s: String)
        ensures
            final(self).printed.deep_view() == old(self).printed.deep_view().push(s@),
            final(self).memory == old(self).memory,
            final(self).stack == old(self).stack,
    {
        let ghost sv = s@;
        self.printed.push(s);
        proof {
            assert(self.printed.deep_view() =~= old(self).printed.deep_view().push(sv));
        }
    }

    /// Looks a name up in the store: a copy of the bound value, or nothing.
    pub fn lookup(&self, name: &String) -> (r: Option<Value>)
        requires
            self.wf(),
        ensures
            match r {
                Some(v) => mem_view(self.memory@).contains_key(name@) && v.deep_view()
                    == mem_view(self.memory@)[name@],
                None => !mem_view(self.memory@).contains_key(name@),
            },
    {
        let n = self.memory.len();
        let mut i: usize = 0;
        while i < n
            invariant
                n == self.memory@.len(),
                i <= n,
                self.wf(),
                forall|j: int| 0 <= j < i ==> self.memory@[j].0@ != name@,
            decreases n - i,
        {
            if self.memory[i].0 == *name {
                let v = self.memory[i].1.clone();
                proof {
                    lemma_mem_view_get(self.memory@, i as int);
                }
                return Some(v);
            }
            i = i + 1;
        }
        proof {
            lemma_mem_view_absent(self.memory@, name@);
        }
        None
    }

    /// Binds a name to a value, overwriting any existing binding.
    pub fn store(&mut self, name: String, value: Value)
        requires
            old(self).wf(),
        ensures
            final(self).wf(),
            mem_view(final(self).memory@) == mem_view(old(self).memory@).insert(
                name@,
                value.deep_view(),
            ),
            final(self).stack == old(self).stack,
            final(self).printed == old(self).printed,
    {
        let n = self.memory.len();
        let mut i: usize = 0;
        while i < n
            invariant
                n == self.memory@.len(),
                i <= n,
                self.wf(),
                self.memory == old(self).memory,
                self.stack == old(self).stack,
                self.printed == old(self).printed,
                forall|j: int| 0 <= j < i ==> self.memory@[j].0@ != name@,
            decreases n - i,
        {
            if self.memory[i].0 == name {
                proof {
                    lemma_mem_view_set(self.memory@, i as int, (name, value));
                }
                self.memory[i] = (name, value);
                return ;
            }
            i = i + 1;
        }
        proof {
            assert(self.memory@.push((name, value)).drop_last() =~= self.memory@);
        }
        self.memory.push((name, value));
    }
}

/// With unique names, the map view of the store holds exactly the bindings
/// of its entries: an entry's name maps to that entry's value.
pub proof fn lemma_mem_view_get(entries: Seq<(String, Value)>, i: int)
    requires
        0 <= i < entries.len(),
        forall|a: int, b: int|
            0 <= a < b < entries.len() ==> entries[a].0@ != entries[b].0@,
    ensures
        mem_view(entries).contains_key(entries[i].0@),
        mem_view(entries)[entries[i].0@] == entries[i].1.deep_view(),
    decreases entries.len(),
{
    if i < entries.len() - 1 {
        lemma_mem_view_get(entries.drop_last(), i);
    }
}

/// A name no entry bears is absent from the map view of the store.
pub proof fn lemma_mem_view_absent(entries: Seq<(String, Value)>, name: Seq<char>)
    requires
        forall|j: int| 0 <= j < entries.len() ==> entries[j].0@ != name,
    ensures
        !mem_view(entries).contains_key(name),
    decreases entries.len(),
{
    if entries.len() > 0 {
        lemma_mem_view_absent(entries.drop_last(), name);
    }
}

/// Overwriting the entry that bears a name changes the map view exactly as
/// an insert for that name does.
pub proof fn lemma_mem_view_set(entries: Seq<(String, Value)>, i: int, pair: (String, Value))
    requires
        0 <= i < entries.len(),
        entries[i].0@ == pair.0@,
        forall|a: int, b: int|
            0 <= a < b < entries.len() ==> entries[a].0@ != entries[b].0@,
    ensures
        mem_view(entries.update(i, pair)) == mem_view(entries).insert(
            pair.0@,
            pair.1.deep_view(),
        ),
    decreases entries.len(),
{
    let upd = entries.update(i, pair);
    if i == entries.len() - 1 {
        assert(upd.drop_last() =~= entries.drop_last());
        assert(mem_view(upd) =~= mem_view(entries).insert(pair.0@, pair.1.deep_view()));
    } else {
        lemma_mem_view_set(entries.drop_last(), i, pair);
        assert(upd.drop_last() =~= entries.drop_last().update(i, pair));
        assert(upd.last() == entries.last());
        assert(entries.last().0@ != pair.0@);
        assert(mem_view(upd) =~= mem_view(entries).insert(pair.0@, pair.1.deep_view()));
    }
}

} // verus!
