//! Building selectors from comma-separated field lists.

use vstd::prelude::*;

use crate::path::parse_path;
use crate::selector::{enable_m, fresh, FieldSelector, SelectorModel};
use crate::shape::Shape;
use crate::text::{split_on, split_text, trim_text, trimmed};

verus! {

/// The texts of `ts` that are not empty, in order.
pub open spec fn keep_nonempty(ts: Seq<Seq<char>>) -> Seq<Seq<char>>
    decreases ts.len(),
{
    if ts.len() == 0 {
        Seq::empty()
    } else {
        let front = keep_nonempty(ts.drop_last());
        if ts.last().len() > 0 {
            front.push(ts.last())
        } else {
            front
        }
    }
}

/// The entries of a comma-separated list: each piece trimmed of white space,
/// and the empty ones dropped. Order and repeats are kept.
pub open spec fn field_list(s: Seq<char>) -> Seq<Seq<char>> {
    keep_nonempty(Seq::new(split_on(s, ',').len(), |i: int| trimmed(split_on(s, ',')[i])))
}

/// `s` with each of the dotted paths `texts` enabled in turn.
pub open spec fn enable_each(s: SelectorModel, texts: Seq<Seq<char>>) -> SelectorModel
    decreases texts.len(),
{
    if texts.len() == 0 {
        s
    } else {
        enable_m(enable_each(s, texts.drop_last()), parse_path(texts.last()))
    }
}

/// Splits a comma-separated list of field paths, such as a query parameter
/// `"id, name,profile.bio"`, trimming each entry and dropping empty ones.
pub fn parse_field_list<'a>(fields: &'a str) -> (r: Vec<&'a str>)
    ensures
        r@.len() == field_list(fields@).len(),
        forall|j: int| 0 <= j < r@.len() ==> #[trigger] r@[j]@ == field_list(fields@)[j],
{
    let pieces = split_text(fields, ',');
    let ghost trimmed_all = Seq::new(
        split_on(fields@, ',').len(),
        |i: int| trimmed(split_on(fields@, ',')[i]),
    );
    let mut out: Vec<&'a str> = Vec::new();
    let mut i: usize = 0;
    while i < pieces.len()
        invariant
            pieces@.len() == trimmed_all.len(),
            trimmed_all == Seq::new(
                split_on(fields@, ',').len(),
                |i: int| trimmed(split_on(fields@, ',')[i]),
            ),
            forall|j: int| 0 <= j < pieces@.len() ==> #[trigger] pieces@[j]@ == split_on(fields@, ',')[j],
            i <= pieces@.len(),
            out@.len() == keep_nonempty(trimmed_all.take(i as int)).len(),
            forall|j: int|
                0 <= j < out@.len() ==> #[trigger] out@[j]@ == keep_nonempty(
                    trimmed_all.take(i as int),
                )[j],
        decreases pieces@.len() - i,
    {
        let t = trim_text(pieces[i]);
        assert(trimmed_all.take(i + 1).drop_last() =~= trimmed_all.take(i as int));
        assert(trimmed_all.take(i + 1).last() == t@);
        if t.unicode_len() > 0 {
            out.push(t);
        }
        i = i + 1;
    }
    assert(trimmed_all.take(pieces@.len() as int) =~= trimmed_all);
    out
}

/// A selector for `shape` with every entry of the comma-separated list
/// `fields` enabled as a dotted path.
pub fn create_selector_from_list<T: FieldSelector>(shape: &Shape, fields: &str) -> (r: T)
    ensures
        r.selection() == enable_each(fresh(shape@), field_list(fields@)),
{
    let list = parse_field_list(fields);
    let ghost texts = field_list(fields@);
    let mut selector = T::new(shape);
    let mut i: usize = 0;
    while i < list.len()
        invariant
            texts == field_list(fields@),
            list@.len() == texts.len(),
            forall|j: int| 0 <= j < list@.len() ==> #[trigger] list@[j]@ == texts[j],
            i <= list@.len(),
            selector.selection() == enable_each(fresh(shape@), texts.take(i as int)),
        decreases list@.len() - i,
    {
        assert(texts.take(i + 1).drop_last() =~= texts.take(i as int));
        selector.enable_dot_hierarchy(list[i]);
        i = i + 1;
    }
    assert(texts.take(list@.len() as int) =~= texts);
    selector
}

} // verus!
