//! Filtered rendering: a record walked together with its selector, keeping
//! only the enabled fields.

use vstd::prelude::*;

use crate::selector::{state_at, FieldState, Selector, SelectorModel, StateModel, slot_model};
use crate::value::{entries_of, tree_of, trees_of, Tree, Value};

verus! {

/// `t` rendered through `s`. A record keeps, in its own order, the entries
/// whose fields are set: an entry included whole is kept as it is, and one
/// with a nested selector is rendered through it. A sequence renders each of
/// its items through `s`, keeping their order and number. Any other value
/// (an absent optional value among them) is kept as it is.
pub open spec fn render_m(t: Tree, s: SelectorModel) -> Tree
    decreases t,
{
    match t {
        Tree::Record(es) => Tree::Record(render_entries(es, s)),
        Tree::List(items) => Tree::List(
            Seq::new(
                items.len(),
                |i: int|
                    if 0 <= i < items.len() {
                        render_m(items[i], s)
                    } else {
                        Tree::Null
                    },
            ),
        ),
        _ => t,
    }
}

/// The entries of a record rendered through `s`, in their order.
pub open spec fn render_entries(es: Seq<(Seq<char>, Tree)>, s: SelectorModel) -> Seq<
    (Seq<char>, Tree),
>
    decreases es,
{
    if es.len() == 0 {
        Seq::empty()
    } else {
        let front = render_entries(es.drop_last(), s);
        let name = es.last().0;
        match state_at(s, name) {
            StateModel::Unset => front,
            StateModel::Leaf => front.push(es.last()),
            StateModel::Nested(n) => front.push((name, render_m(es.last().1, n))),
        }
    }
}

/// Renders `v` through `sel`: see `render_m`.
pub fn render(v: &Value, sel: &Selector) -> (r: Value)
    ensures
        r@ == render_m(v@, sel@),
    decreases v,
{
    match v {
        Value::Record(es) => {
            let ghost esm = entries_of(es@);
            let mut out: Vec<(String, Value)> = Vec::new();
            let mut i: usize = 0;
            while i < es.len()
                invariant
                    *v == Value::Record(*es),
                    esm == entries_of(es@),
                    i <= es@.len(),
                    entries_of(out@) == render_entries(esm.take(i as int), sel@),
                decreases es@.len() - i,
            {
                let e = &es[i];
                let ghost front = entries_of(out@);
                assert(esm.take(i + 1).drop_last() =~= esm.take(i as int));
                assert(esm.take(i + 1).last() == (e.0@, tree_of(e.1)));
                match sel.position(e.0.as_str()) {
                    None => {},
                    Some(j) => {
                        assert(sel@.slots[j as int] == slot_model(sel.slots@[j as int]));
                        match &sel.slots[j].state {
                            FieldState::Unset => {},
                            FieldState::Leaf => {
                                out.push((e.0.clone(), e.1.duplicate()));
                                assert(entries_of(out@) =~= front.push((e.0@, tree_of(e.1))));
                            },
                            FieldState::Nested(n) => {
                                proof {
                                    assert(v->Record_0 == *es);
                                    assert(decreases_to!(*v => v->Record_0));
                                    assert(decreases_to!(*es => es@));
                                    assert(decreases_to!(es@ => es@[i as int]));
                                    assert(decreases_to!(es@[i as int] => es@[i as int].1));
                                }
                                let rendered = render(&e.1, n);
                                out.push((e.0.clone(), rendered));
                                assert(entries_of(out@) =~= front.push(
                                    (e.0@, render_m(tree_of(e.1), n@)),
                                ));
                            },
                        }
                    },
                }
                i = i + 1;
            }
            assert(esm.take(es@.len() as int) =~= esm);
            Value::Record(out)
        },
        Value::List(items) => {
            let mut out: Vec<Value> = Vec::new();
            let mut i: usize = 0;
            while i < items.len()
                invariant
                    *v == Value::List(*items),
                    i <= items@.len(),
                    out@.len() == i,
                    forall|j: int|
                        0 <= j < i ==> #[trigger] tree_of(out@[j]) == render_m(
                            tree_of(items@[j]),
                            sel@,
                        ),
                decreases items@.len() - i,
            {
                proof {
                    assert(v->List_0 == *items);
                    assert(decreases_to!(*v => v->List_0));
                    assert(decreases_to!(*items => items@));
                    assert(decreases_to!(items@ => items@[i as int]));
                }
                out.push(render(&items[i], sel));
                i = i + 1;
            }
            let r = Value::List(out);
            let ghost target = render_m(v@, sel@)->List_0;
            assert(v@ == Tree::List(trees_of(items@)));
            assert forall|j: int| 0 <= j < items@.len() implies trees_of(out@)[j] == target[j] by {
                assert(tree_of(out@[j]) == render_m(tree_of(items@[j]), sel@));
            }
            assert(trees_of(out@) =~= target);
            r
        },
        _ => v.duplicate(),
    }
}

/// A record together with the selector it is rendered through.
pub struct SerializeFields<'a>(pub &'a Value, pub &'a Selector);

impl<'a> SerializeFields<'a> {
    /// The record rendered through the selector.
    pub fn render(&self) -> (r: Value)
        ensures
            r@ == render_m(self.0@, self.1@),
    {
        render(self.0, self.1)
    }
}

} // verus!
