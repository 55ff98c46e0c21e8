//! Record values: the trees that selectors filter.

use vstd::prelude::*;

use crate::shape::{first_index, lemma_first_index, lemma_first_index_at};
use crate::text::same_text;

verus! {

/// A value of a record: a scalar, a sequence, or a record of named fields in
/// declared order. `Null` stands for an absent optional value.
#[derive(Debug, PartialEq)]
pub enum Value {
    Null,
    Bool(bool),
    UInt(u64),
    Int(i64),
    Text(String),
    List(Vec<Value>),
    Record(Vec<(String, Value)>),
}

/// A value as the contracts see it.
pub enum Tree {
    Null,
    Bool(bool),
    UInt(u64),
    Int(i64),
    Text(Seq<char>),
    List(Seq<Tree>),
    Record(Seq<(Seq<char>, Tree)>),
}

pub open spec fn tree_of(v: Value) -> Tree
    decreases v,
{
    match v {
        Value::Null => Tree::Null,
        Value::Bool(b) => Tree::Bool(b),
        Value::UInt(n) => Tree::UInt(n),
        Value::Int(n) => Tree::Int(n),
        Value::Text(s) => Tree::Text(s@),
        Value::List(items) => Tree::List(trees_of(items@)),
        Value::Record(es) => Tree::Record(entries_of(es@)),
    }
}

pub open spec fn trees_of(items: Seq<Value>) -> Seq<Tree>
    decreases items,
{
    Seq::new(
        items.len(),
        |i: int|
            if 0 <= i < items.len() {
                tree_of(items[i])
            } else {
                Tree::Null
            },
    )
}

pub open spec fn entries_of(es: Seq<(String, Value)>) -> Seq<(Seq<char>, Tree)>
    decreases es,
{
    Seq::new(
        es.len(),
        |i: int|
            if 0 <= i < es.len() {
                (es[i].0@, tree_of(es[i].1))
            } else {
                (Seq::empty(), Tree::Null)
            },
    )
}

impl View for Value {
    type V = Tree;

    open spec fn view(&self) -> Tree {
        tree_of(*self)
    }
}

/// The names of a record's entries, in order.
pub open spec fn entry_names(es: Seq<(Seq<char>, Tree)>) -> Seq<Seq<char>> {
    Seq::new(es.len(), |i: int| es[i].0)
}

/// The number of entries of a record or items of a sequence; 0 for a scalar.
pub open spec fn size_of(t: Tree) -> nat {
    match t {
        Tree::List(items) => items.len(),
        Tree::Record(es) => es.len(),
        _ => 0,
    }
}

/// The value of the first entry of a record named `name`.
pub open spec fn entry_of(t: Tree, name: Seq<char>) -> Option<Tree> {
    match t {
        Tree::Record(es) => {
            let i = first_index(entry_names(es), name);
            if i >= 0 {
                Some(es[i].1)
            } else {
                None
            }
        },
        _ => None,
    }
}

impl Value {
    /// A copy of this value.
    pub fn duplicate(&self) -> (r: Value)
        ensures
            r@ == self@,
        decreases self,
    {
        match self {
            Value::Null => Value::Null,
            Value::Bool(b) => Value::Bool(*b),
            Value::UInt(n) => Value::UInt(*n),
            Value::Int(n) => Value::Int(*n),
            Value::Text(s) => Value::Text(s.clone()),
            Value::List(items) => {
                let mut out: Vec<Value> = Vec::new();
                let mut i: usize = 0;
                while i < items.len()
                    invariant
                        *self == Value::List(*items),
                        i <= items@.len(),
                        out@.len() == i,
                        forall|j: int| 0 <= j < i ==> #[trigger] tree_of(out@[j]) == tree_of(items@[j]),
                    decreases items@.len() - i,
                {
                    proof {
                        assert(self->List_0 == *items);
                        assert(decreases_to!(*self => self->List_0));
                        assert(decreases_to!(*items => items@));
                        assert(decreases_to!(items@ => items@[i as int]));
                    }
                    out.push(items[i].duplicate());
                    i = i + 1;
                }
                let r = Value::List(out);
                assert forall|j: int| 0 <= j < items@.len() implies trees_of(out@)[j] == trees_of(items@)[j] by {
                    assert(tree_of(out@[j]) == tree_of(items@[j]));
                }
                assert(trees_of(out@) =~= trees_of(items@));
                r
            },
            Value::Record(es) => {
                let mut out: Vec<(String, Value)> = Vec::new();
                let mut i: usize = 0;
                while i < es.len()
                    invariant
                        *self == Value::Record(*es),
                        i <= es@.len(),
                        out@.len() == i,
                        forall|j: int|
                            0 <= j < i ==> #[trigger] out@[j].0@ == es@[j].0@ && tree_of(out@[j].1)
                                == tree_of(es@[j].1),
                    decreases es@.len() - i,
                {
                    proof {
                        assert(self->Record_0 == *es);
                        assert(decreases_to!(*self => self->Record_0));
                        assert(decreases_to!(*es => es@));
                        assert(decreases_to!(es@ => es@[i as int]));
                        assert(decreases_to!(es@[i as int] => es@[i as int].1));
                    }
                    let e = &es[i];
                    out.push((e.0.clone(), e.1.duplicate()));
                    i = i + 1;
                }
                let r = Value::Record(out);
                assert(entries_of(out@) =~= entries_of(es@));
                r
            },
        }
    }

    /// The value of the first entry named `name`, when this is a record that
    /// has one.
    pub fn get(&self, name: &str) -> (r: Option<&Value>)
        ensures
            r is Some <==> entry_of(self@, name@) is Some,
            r is Some ==> r->0@ == entry_of(self@, name@)->0,
    {
        match self {
            Value::Record(es) => {
                let ghost names = entry_names(entries_of(es@));
                let mut i: usize = 0;
                while i < es.len()
                    invariant
                        *self == Value::Record(*es),
                        i <= es@.len(),
                        names == entry_names(entries_of(es@)),
                        forall|j: int| 0 <= j < i ==> names[j] != name@,
                    decreases es@.len() - i,
                {
                    assert(names[i as int] == es@[i as int].0@);
                    if same_text(es[i].0.as_str(), name) {
                        proof {
                            lemma_first_index_at(names, name@, i as int);
                            }
                        return Some(&es[i].1);
                    }
                    i = i + 1;
                }
                proof {
                    lemma_first_index(names, name@);
                }
                None
            },
            _ => None,
        }
    }

    /// Whether this record has an entry named `name`.
    pub fn contains_key(&self, name: &str) -> (r: bool)
        ensures
            r == entry_of(self@, name@) is Some,
    {
        self.get(name).is_some()
    }

    /// The number of entries of a record or items of a sequence; 0 for a
    /// scalar.
    pub fn len(&self) -> (r: usize)
        ensures
            r == size_of(self@),
    {
        match self {
            Value::List(items) => items.len(),
            Value::Record(es) => es.len(),
            _ => 0,
        }
    }

    /// The `i`-th item of a sequence.
    pub fn item(&self, i: usize) -> (r: Option<&Value>)
        ensures
            match self@ {
                Tree::List(items) => if i < items.len() {
                    r is Some && r->0@ == items[i as int]
                } else {
                    r is None
                },
                _ => r is None,
            },
    {
        match self {
            Value::List(items) => {
                if i < items.len() {
                    Some(&items[i])
                } else {
                    None
                }
            },
            _ => None,
        }
    }

    /// The number held by an unsigned integer value.
    pub fn as_u64(&self) -> (r: Option<u64>)
        ensures
            r == (match self@ {
                Tree::UInt(n) => Some(n),
                _ => None::<u64>,
            }),
    {
        match self {
            Value::UInt(n) => Some(*n),
            _ => None,
        }
    }

    /// The text held by a text value.
    pub fn as_str(&self) -> (r: Option<&str>)
        ensures
            match self@ {
                Tree::Text(s) => r is Some && r->0@ == s,
                _ => r is None,
            },
    {
        match self {
            Value::Text(s) => Some(s.as_str()),
            _ => None,
        }
    }

    /// Whether this is the absent value.
    pub fn is_null(&self) -> (r: bool)
        ensures
            r == (self@ is Null),
    {
        match self {
            Value::Null => true,
            _ => false,
        }
    }
}

} // verus!
