//! Helpers built on the containment query alone: filling a partial record,
//! and collecting output names for the enabled paths.

use vstd::prelude::*;

use crate::path::{parse_path, Path};
use crate::selector::{contains_m, Selector, SelectorModel};
use crate::text::same_text;

verus! {

/// The value for the field `field` of a partial record: what `make` returns
/// when the field is enabled in `sel`, and `None` (without calling `make`)
/// when it is not.
pub fn copy_selected<T, F: FnOnce() -> Option<T>>(sel: &Selector, field: &str, make: F) -> (r:
    Option<T>)
    requires
        make.requires(()),
    ensures
        contains_m(sel@, seq![field@]) ==> make.ensures((), r),
        !contains_m(sel@, seq![field@]) ==> r is None,
{
    let mut segments: Vec<String> = Vec::new();
    segments.push(field.to_owned());
    let path = Path { segments };
    assert(path@ =~= seq![field@]);
    if sel.contains_path(&path) {
        make()
    } else {
        None
    }
}

/// The views of a list of texts.
pub open spec fn texts_of(v: Seq<String>) -> Seq<Seq<char>> {
    Seq::new(v.len(), |i: int| v[i]@)
}

/// A table from dotted paths to output names, as the contracts see it.
pub open spec fn table_of(mapping: Seq<(&str, Vec<&str>)>) -> Seq<(Seq<char>, Seq<Seq<char>>)> {
    Seq::new(
        mapping.len(),
        |k: int| (mapping[k].0@, Seq::new(mapping[k].1@.len(), |m: int| mapping[k].1@[m]@)),
    )
}

/// Whether `name` is an output name of one of the first `k` rows of `table`
/// whose path is enabled in `s`.
pub open spec fn selected_in(
    s: SelectorModel,
    table: Seq<(Seq<char>, Seq<Seq<char>>)>,
    k: int,
    name: Seq<char>,
) -> bool {
    exists|j: int|
        0 <= j < k && contains_m(s, parse_path(#[trigger] table[j].0)) && table[j].1.contains(name)
}

/// Adds to `out` each of `names` that it does not hold yet.
fn add_names(out: &mut Vec<String>, names: &Vec<&str>)
    requires
        texts_of(old(out)@).no_duplicates(),
    ensures
        texts_of(final(out)@).no_duplicates(),
        forall|n: Seq<char>|
            #[trigger] texts_of(final(out)@).contains(n) <==> texts_of(old(out)@).contains(n)
                || Seq::new(names@.len(), |m: int| names@[m]@).contains(n),
{
    let ghost given = Seq::new(names@.len(), |m: int| names@[m]@);
    let mut i: usize = 0;
    while i < names.len()
        invariant
            given == Seq::new(names@.len(), |m: int| names@[m]@),
            i <= names@.len(),
            texts_of(out@).no_duplicates(),
            forall|n: Seq<char>|
                #[trigger] texts_of(out@).contains(n) <==> texts_of(old(out)@).contains(n)
                    || given.take(i as int).contains(n),
        decreases names@.len() - i,
    {
        let name = names[i];
        let ghost before = texts_of(out@);
        let mut seen = false;
        let mut j: usize = 0;
        while j < out.len()
            invariant
                before == texts_of(out@),
                j <= out@.len(),
                seen == (exists|t: int| 0 <= t < j && before[t] == name@),
            decreases out@.len() - j,
        {
            assert(before[j as int] == out@[j as int]@);
            if same_text(out[j].as_str(), name) {
                seen = true;
            }
            assert(forall|t: int|
                0 <= t < j + 1 && before[t] == name@ ==> (0 <= t < j && before[t] == name@) || t
                    == j);
            j = j + 1;
        }
        if !seen {
            out.push(name.to_owned());
            assert(texts_of(out@) =~= before.push(name@));
            assert forall|a: int, b: int|
                0 <= a < texts_of(out@).len() && 0 <= b < texts_of(out@).len() && a != b implies
                texts_of(out@)[a] != texts_of(out@)[b] by {
                if a < before.len() && b < before.len() {
                    assert(before[a] != before[b]);
                }
            }
        } else {
            assert(texts_of(out@) =~= before);
        }
        assert(given.take(i + 1)[i as int] == name@);
        assert(given.take(i + 1) =~= given.take(i as int).push(name@));
        assert forall|n: Seq<char>|
            #[trigger] texts_of(out@).contains(n) <==> texts_of(old(out)@).contains(n)
                || given.take(i + 1).contains(n) by {
            if texts_of(out@).contains(n) && !before.contains(n) {
                let t = choose|t: int| 0 <= t < texts_of(out@).len() && texts_of(out@)[t] == n;
                assert(t == before.len());
                assert(n == name@);
            }
            if before.contains(n) {
                let t = choose|t: int| 0 <= t < before.len() && before[t] == n;
                assert(texts_of(out@)[t] == n);
            }
            if given.take(i + 1).contains(n) && !given.take(i as int).contains(n) {
                let t = choose|t: int| 0 <= t < i + 1 && #[trigger] given.take(i + 1)[t] == n;
                if t < i {
                    assert(given.take(i as int)[t] == n);
                }
                assert(n == name@);
                if seen {
                    let t = choose|t: int| 0 <= t < before.len() && before[t] == name@;
                    assert(texts_of(out@)[t] == n);
                } else {
                    assert(texts_of(out@)[before.len() as int] == n);
                }
            }
            if given.take(i as int).contains(n) {
                let t = choose|t: int| 0 <= t < i && #[trigger] given.take(i as int)[t] == n;
                assert(given.take(i + 1)[t] == n);
            }
        }
        i = i + 1;
    }
    assert(given.take(names@.len() as int) =~= given);
}

/// The output names of every row of `mapping` whose dotted path is enabled
/// in `sel`, each once. A row may give any number of names; the rows whose
/// path is not enabled give none.
pub fn filter_field_set(sel: &Selector, mapping: &[(&str, Vec<&str>)]) -> (r: Vec<String>)
    ensures
        texts_of(r@).no_duplicates(),
        forall|n: Seq<char>|
            #[trigger] texts_of(r@).contains(n) <==> selected_in(
                sel@,
                table_of(mapping@),
                mapping@.len() as int,
                n,
            ),
{
    let ghost table = table_of(mapping@);
    let mut out: Vec<String> = Vec::new();
    let mut k: usize = 0;
    assert(texts_of(out@) =~= Seq::<Seq<char>>::empty());
    while k < mapping.len()
        invariant
            table == table_of(mapping@),
            k <= mapping@.len(),
            texts_of(out@).no_duplicates(),
            forall|n: Seq<char>|
                #[trigger] texts_of(out@).contains(n) <==> selected_in(sel@, table, k as int, n),
        decreases mapping@.len() - k,
    {
        let row = &mapping[k];
        let ghost before = texts_of(out@);
        assert(table[k as int].0 == row.0@);
        assert(table[k as int].1 == Seq::new(row.1@.len(), |m: int| row.1@[m]@));
        let on = sel.contains(row.0);
        if on {
            add_names(&mut out, &row.1);
        }
        assert forall|n: Seq<char>|
            #[trigger] texts_of(out@).contains(n) <==> selected_in(sel@, table, k + 1, n) by {
            if selected_in(sel@, table, k + 1, n) && !selected_in(sel@, table, k as int, n) {
                let j = choose|j: int|
                    0 <= j < k + 1 && contains_m(sel@, parse_path(#[trigger] table[j].0))
                        && table[j].1.contains(n);
                assert(j == k);
            }
            if selected_in(sel@, table, k as int, n) {
                let j = choose|j: int|
                    0 <= j < k && contains_m(sel@, parse_path(#[trigger] table[j].0))
                        && table[j].1.contains(n);
                assert(0 <= j < k + 1);
            }
            if on && texts_of(out@).contains(n) && !before.contains(n) {
                assert(table[k as int].1.contains(n));
            }
        }
        k = k + 1;
    }
    out
}

} // verus!
