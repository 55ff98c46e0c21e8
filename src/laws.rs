//! Laws that hold between the operations of the library.

use vstd::prelude::*;

use crate::field_ref::{parse_ref, ref_path, valid_ref};
use crate::path::{join_dots, lemma_parse_joined, parse_path, plain_segment};
use crate::render::{render_entries, render_m};
use crate::selector::{
    contains_m, enable_m, enable_slot, fresh, slot_index, slot_names, state_at, SelectorModel,
    SlotModel, StateModel,
};
use crate::shape::{decl_names, lemma_first_index, lemma_first_index_at, ShapeModel};
use crate::value::{entry_names, Tree};

verus! {

/// Enabling a path keeps the names and declared shapes of a selector's
/// fields.
pub proof fn lemma_enable_keeps_fields(s: SelectorModel, p: Seq<Seq<char>>)
    ensures
        enable_m(s, p).slots.len() == s.slots.len(),
        forall|k: int|
            0 <= k < s.slots.len() ==> (#[trigger] enable_m(s, p).slots[k]).name == s.slots[k].name
                && enable_m(s, p).slots[k].nested == s.slots[k].nested,
        slot_names(enable_m(s, p)) == slot_names(s),
{
    if p.len() > 0 {
        lemma_first_index(slot_names(s), p[0]);
    }
    assert(slot_names(enable_m(s, p)) =~= slot_names(s));
}

/// Enabling the same path twice gives the same selector as enabling it once.
pub proof fn lemma_enable_idempotent(s: SelectorModel, p: Seq<Seq<char>>)
    ensures
        enable_m(enable_m(s, p), p) == enable_m(s, p),
    decreases p.len(), 1nat,
{
    if p.len() > 0 {
        let i = slot_index(s, p[0]);
        lemma_first_index(slot_names(s), p[0]);
        if i >= 0 {
            let s1 = enable_m(s, p);
            lemma_enable_keeps_fields(s, p);
            lemma_slot_idempotent(s.slots[i], p.drop_first());
            assert(s1.slots.update(i, enable_slot(s1.slots[i], p.drop_first())) =~= s1.slots);
        }
    }
}

/// Enabling the same rest of a path twice in a slot gives the same slot as
/// enabling it once.
pub proof fn lemma_slot_idempotent(sl: SlotModel, rest: Seq<Seq<char>>)
    ensures
        enable_slot(enable_slot(sl, rest), rest) == enable_slot(sl, rest),
    decreases rest.len(), 2nat,
{
    if rest.len() > 0 {
        match sl.nested {
            None => {},
            Some(shape) => match sl.state {
                StateModel::Leaf => {},
                StateModel::Unset => {
                    lemma_enable_idempotent(fresh(shape), rest);
                },
                StateModel::Nested(n) => {
                    lemma_enable_idempotent(n, rest);
                },
            },
        }
    }
}

/// Enabling two paths in either order gives the same selector: what a
/// selector renders does not depend on the order in which its paths were
/// enabled.
pub proof fn lemma_enable_commutes(s: SelectorModel, p: Seq<Seq<char>>, q: Seq<Seq<char>>)
    ensures
        enable_m(enable_m(s, p), q) == enable_m(enable_m(s, q), p),
    decreases p.len() + q.len(), 1nat,
{
    if p.len() > 0 && q.len() > 0 {
        let i = slot_index(s, p[0]);
        let j = slot_index(s, q[0]);
        lemma_first_index(slot_names(s), p[0]);
        lemma_first_index(slot_names(s), q[0]);
        lemma_enable_keeps_fields(s, p);
        lemma_enable_keeps_fields(s, q);
        if i >= 0 && j >= 0 {
            let a = enable_slot(s.slots[i], p.drop_first());
            let b = enable_slot(s.slots[j], q.drop_first());
            if i != j {
                assert(enable_m(enable_m(s, p), q).slots =~= s.slots.update(i, a).update(j, b));
                assert(enable_m(enable_m(s, q), p).slots =~= s.slots.update(j, b).update(i, a));
                assert(s.slots.update(i, a).update(j, b) =~= s.slots.update(j, b).update(i, a));
            } else {
                lemma_slot_commutes(s.slots[i], p.drop_first(), q.drop_first());
                assert(enable_m(enable_m(s, p), q).slots =~= enable_m(enable_m(s, q), p).slots);
            }
        }
    }
}

/// Enabling two rests of paths in a slot in either order gives the same slot.
pub proof fn lemma_slot_commutes(sl: SlotModel, p: Seq<Seq<char>>, q: Seq<Seq<char>>)
    ensures
        enable_slot(enable_slot(sl, p), q) == enable_slot(enable_slot(sl, q), p),
    decreases p.len() + q.len(), 2nat,
{
    if p.len() > 0 && q.len() > 0 {
        match sl.nested {
            None => {},
            Some(shape) => match sl.state {
                StateModel::Leaf => {},
                StateModel::Unset => {
                    lemma_enable_commutes(fresh(shape), p, q);
                },
                StateModel::Nested(n) => {
                    lemma_enable_commutes(n, p, q);
                },
            },
        }
    }
}

/// A fresh selector renders a record as a record with no field, and holds no
/// path.
pub proof fn lemma_empty_selector(
    shape: ShapeModel,
    es: Seq<(Seq<char>, Tree)>,
    p: Seq<Seq<char>>,
)
    ensures
        render_m(Tree::Record(es), fresh(shape)) == Tree::Record(Seq::empty()),
        !contains_m(fresh(shape), p),
    decreases es.len(),
{
    if p.len() > 0 {
        lemma_first_index(slot_names(fresh(shape)), p[0]);
    }
    if es.len() > 0 {
        lemma_empty_selector(shape, es.drop_last(), p);
        let name = es.last().0;
        lemma_first_index(slot_names(fresh(shape)), name);
        assert(state_at(fresh(shape), name) == StateModel::Unset);
        assert(render_m(Tree::Record(es.drop_last()), fresh(shape)) == Tree::Record(
            render_entries(es.drop_last(), fresh(shape)),
        ));
        assert(render_entries(es, fresh(shape)) == render_entries(es.drop_last(), fresh(shape)));
    }
    assert(render_m(Tree::Record(es), fresh(shape)) == Tree::Record(
        render_entries(es, fresh(shape)),
    ));
}

/// Enabling a path whose first segment names no field changes nothing, so
/// what the selector renders stays the same.
pub proof fn lemma_unknown_field_silent(s: SelectorModel, p: Seq<Seq<char>>, t: Tree)
    requires
        p.len() > 0,
        slot_index(s, p[0]) < 0,
    ensures
        enable_m(s, p) == s,
        render_m(t, enable_m(s, p)) == render_m(t, s),
{
}

/// The names a record's entries keep under `s`: those whose fields are set,
/// in the record's order.
pub open spec fn set_names(names: Seq<Seq<char>>, s: SelectorModel) -> Seq<Seq<char>>
    decreases names.len(),
{
    if names.len() == 0 {
        Seq::empty()
    } else {
        let front = set_names(names.drop_last(), s);
        if state_at(s, names.last()) is Unset {
            front
        } else {
            front.push(names.last())
        }
    }
}

/// Rendering a record keeps exactly the entries whose fields are set, in the
/// record's own order.
pub proof fn lemma_render_order(es: Seq<(Seq<char>, Tree)>, s: SelectorModel)
    ensures
        entry_names(render_entries(es, s)) == set_names(entry_names(es), s),
    decreases es.len(),
{
    if es.len() > 0 {
        lemma_render_order(es.drop_last(), s);
        assert(entry_names(es).drop_last() =~= entry_names(es.drop_last()));
        let front = render_entries(es.drop_last(), s);
        let name = es.last().0;
        match state_at(s, name) {
            StateModel::Unset => {},
            StateModel::Leaf => {
                assert(entry_names(front.push(es.last())) =~= entry_names(front).push(name));
            },
            StateModel::Nested(n) => {
                assert(entry_names(front.push((name, render_m(es.last().1, n)))) =~= entry_names(
                    front,
                ).push(name));
            },
        }
    }
}

/// Rendering and the containment query agree: a record keeps an entry
/// exactly when the one-segment path of its name is enabled.
pub proof fn lemma_render_agrees_with_contains(s: SelectorModel, name: Seq<char>)
    ensures
        !(state_at(s, name) is Unset) <==> contains_m(s, seq![name]),
{
    lemma_first_index(slot_names(s), name);
    assert(seq![name][0] == name);
}

/// Whether no two fields of `shape`, or of a shape nested in it, share a name.
pub open spec fn distinct_names(shape: ShapeModel) -> bool
    decreases shape,
{
    &&& decl_names(shape).no_duplicates()
    &&& forall|k: int|
        0 <= k < shape.fields.len() ==> match #[trigger] shape.fields[k].nested {
            Some(inner) => distinct_names(inner),
            None => true,
        }
}

/// The path of a field reference reads back as the same reference, where
/// field names are not repeated.
pub proof fn lemma_field_ref_round_trip(shape: ShapeModel, ix: Seq<int>)
    requires
        distinct_names(shape),
        valid_ref(shape, ix),
    ensures
        parse_ref(shape, ref_path(shape, ix)) == Some(ix),
    decreases ix.len(),
{
    let i = ix[0];
    let names = decl_names(shape);
    assert(names[i] == shape.fields[i].name);
    lemma_first_index_at(names, shape.fields[i].name, i);
    match shape.fields[i].nested {
        None => {
            assert(seq![i] =~= ix);
        },
        Some(inner) => {
            let rest = ix.drop_first();
            lemma_field_ref_round_trip(inner, rest);
            let path = ref_path(shape, ix);
            assert(path.drop_first() =~= ref_path(inner, rest));
            assert(seq![i] + rest =~= ix);
        },
    }
}

/// Whether every field name of `shape`, and of the shapes nested in it, can
/// stand as a segment of a dotted path.
pub open spec fn plain_names(shape: ShapeModel) -> bool
    decreases shape,
{
    forall|k: int|
        0 <= k < shape.fields.len() ==> plain_segment((#[trigger] shape.fields[k]).name) && match shape.fields[k].nested {
            Some(inner) => plain_names(inner),
            None => true,
        }
}

/// The path of a field reference is made of plain segments.
pub proof fn lemma_ref_path_plain(shape: ShapeModel, ix: Seq<int>)
    requires
        plain_names(shape),
        valid_ref(shape, ix),
    ensures
        ref_path(shape, ix).len() > 0,
        forall|k: int|
            0 <= k < ref_path(shape, ix).len() ==> plain_segment(#[trigger] ref_path(shape, ix)[k]),
    decreases ix.len(),
{
    let d = shape.fields[ix[0]];
    assert(plain_segment(d.name));
    match d.nested {
        Some(inner) => {
            lemma_ref_path_plain(inner, ix.drop_first());
            let tail = ref_path(inner, ix.drop_first());
            assert forall|k: int| 0 <= k < ref_path(shape, ix).len() implies plain_segment(
                #[trigger] ref_path(shape, ix)[k],
            ) by {
                if k > 0 {
                    assert(ref_path(shape, ix)[k] == tail[k - 1]);
                }
            }
        },
        None => {},
    }
}

/// The dotted text of a field reference's path reads back as the same
/// reference, where field names are not repeated and hold no dot.
pub proof fn lemma_field_ref_text_round_trip(shape: ShapeModel, ix: Seq<int>)
    requires
        distinct_names(shape),
        plain_names(shape),
        valid_ref(shape, ix),
    ensures
        parse_ref(shape, parse_path(join_dots(ref_path(shape, ix)))) == Some(ix),
{
    lemma_ref_path_plain(shape, ix);
    lemma_parse_joined(ref_path(shape, ix));
    lemma_field_ref_round_trip(shape, ix);
}

} // verus!
