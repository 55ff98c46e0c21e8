//! Selectors: which fields of a record shape, and which of their nested
//! fields, are enabled.

use vstd::prelude::*;

use crate::path::{parse_path, Path};
use crate::shape::{first_index, lemma_first_index, lemma_first_index_at, Shape, ShapeModel};
use crate::text::same_text;

verus! {

/// What a selector holds for one field, as the contracts see it.
pub enum StateModel {
    /// The field is left out.
    Unset,
    /// The field is included whole.
    Leaf,
    /// The field is included through a nested selector.
    Nested(SelectorModel),
}

/// One field of a selector as the contracts see it: its name, the shape of its
/// nested records (if its values hold records), and its state.
pub struct SlotModel {
    pub name: Seq<char>,
    pub nested: Option<ShapeModel>,
    pub state: StateModel,
}

/// A selector as the contracts see it: one slot per declared field, in
/// declared order.
pub struct SelectorModel {
    pub slots: Seq<SlotModel>,
}

/// The field names of a selector, in declared order.
pub open spec fn slot_names(s: SelectorModel) -> Seq<Seq<char>> {
    Seq::new(s.slots.len(), |i: int| s.slots[i].name)
}

/// The slot of the first field named `name`, or -1.
pub open spec fn slot_index(s: SelectorModel, name: Seq<char>) -> int {
    first_index(slot_names(s), name)
}

/// The state of the field named `name`; a name that is not declared is unset.
pub open spec fn state_at(s: SelectorModel, name: Seq<char>) -> StateModel {
    let i = slot_index(s, name);
    if i < 0 {
        StateModel::Unset
    } else {
        s.slots[i].state
    }
}

/// The selector of a shape with every field unset.
pub open spec fn fresh(shape: ShapeModel) -> SelectorModel {
    SelectorModel {
        slots: Seq::new(
            shape.fields.len(),
            |i: int|
                SlotModel {
                    name: shape.fields[i].name,
                    nested: shape.fields[i].nested,
                    state: StateModel::Unset,
                },
        ),
    }
}

/// `s` with `path` enabled. An empty path, or one whose first segment names no
/// field, changes nothing; otherwise the named field's slot is updated by
/// `enable_slot` with the rest of the path.
pub open spec fn enable_m(s: SelectorModel, path: Seq<Seq<char>>) -> SelectorModel
    decreases path.len(), 1nat,
{
    if path.len() == 0 {
        s
    } else {
        let i = slot_index(s, path[0]);
        if i < 0 {
            s
        } else {
            SelectorModel { slots: s.slots.update(i, enable_slot(s.slots[i], path.drop_first())) }
        }
    }
}

/// A slot with the rest of a path enabled in it. With nothing left the field
/// becomes included whole. Otherwise, a field whose values are not records
/// stays as it is, and so does a field already included whole; an unset field
/// gets a fresh nested selector of its declared shape, and the rest is enabled
/// in the nested selector.
pub open spec fn enable_slot(slot: SlotModel, rest: Seq<Seq<char>>) -> SlotModel
    decreases rest.len(), 2nat,
{
    if rest.len() == 0 {
        SlotModel { name: slot.name, nested: slot.nested, state: StateModel::Leaf }
    } else {
        match slot.nested {
            None => slot,
            Some(shape) => match slot.state {
                StateModel::Leaf => slot,
                StateModel::Unset => SlotModel {
                    name: slot.name,
                    nested: slot.nested,
                    state: StateModel::Nested(enable_m(fresh(shape), rest)),
                },
                StateModel::Nested(n) => SlotModel {
                    name: slot.name,
                    nested: slot.nested,
                    state: StateModel::Nested(enable_m(n, rest)),
                },
            },
        }
    }
}

/// Whether `path` is enabled in `s`: its first field is set, and either the
/// path ends there, or the field has a nested selector in which the rest of
/// the path is enabled.
pub open spec fn contains_m(s: SelectorModel, path: Seq<Seq<char>>) -> bool
    decreases path.len(),
{
    if path.len() == 0 {
        false
    } else {
        let i = slot_index(s, path[0]);
        if i < 0 {
            false
        } else {
            match s.slots[i].state {
                StateModel::Unset => false,
                StateModel::Leaf => path.len() == 1,
                StateModel::Nested(n) => path.len() == 1 || contains_m(n, path.drop_first()),
            }
        }
    }
}

/// What a selector holds for one field.
pub enum FieldState {
    Unset,
    Leaf,
    Nested(Selector),
}

/// One field of a selector.
pub struct Slot {
    pub name: String,
    pub nested: Option<Shape>,
    pub state: FieldState,
}

/// The enabled fields of a record shape, with nested selectors for the
/// nested fields enabled in part.
pub struct Selector {
    pub slots: Vec<Slot>,
}

pub open spec fn selector_model(s: Selector) -> SelectorModel
    decreases s,
{
    SelectorModel {
        slots: Seq::new(
            s.slots@.len(),
            |i: int|
                if 0 <= i < s.slots@.len() {
                    slot_model(s.slots@[i])
                } else {
                    SlotModel { name: Seq::empty(), nested: None, state: StateModel::Unset }
                },
        ),
    }
}

pub open spec fn slot_model(sl: Slot) -> SlotModel
    decreases sl,
{
    SlotModel {
        name: sl.name@,
        nested: match sl.nested {
            Some(n) => Some(n@),
            None => None,
        },
        state: state_model(sl.state),
    }
}

pub open spec fn state_model(st: FieldState) -> StateModel
    decreases st,
{
    match st {
        FieldState::Unset => StateModel::Unset,
        FieldState::Leaf => StateModel::Leaf,
        FieldState::Nested(n) => StateModel::Nested(selector_model(n)),
    }
}

impl View for Selector {
    type V = SelectorModel;

    open spec fn view(&self) -> SelectorModel {
        selector_model(*self)
    }
}

impl Selector {
    /// The slot of the first field named `name`, if any.
    pub fn position(&self, name: &str) -> (r: Option<usize>)
        ensures
            r is Some <==> slot_index(self@, name@) >= 0,
            r is Some ==> r->0 == slot_index(self@, name@) && r->0 < self.slots@.len(),
    {
        let ghost names = slot_names(self@);
        let mut i: usize = 0;
        while i < self.slots.len()
            invariant
                i <= self.slots@.len(),
                names == slot_names(self@),
                forall|j: int| 0 <= j < i ==> names[j] != name@,
            decreases self.slots@.len() - i,
        {
            if same_text(self.slots[i].name.as_str(), name) {
                proof {
                    lemma_first_index_at(names, name@, i as int);
                }
                return Some(i);
            }
            i = i + 1;
        }
        proof {
            lemma_first_index(names, name@);
        }
        None
    }
    /// Enables the segments of `path` from the `k`-th on.
    fn enable_from(&mut self, path: &Path, k: usize)
        requires
            k <= path@.len(),
        ensures
            final(self)@ == enable_m(old(self)@, path@.skip(k as int)),
        decreases path@.len() - k,
    {
        let ghost rest = path@.skip(k as int);
        if k >= path.segments.len() {
            assert(rest.len() == 0);
            return;
        }
        assert(rest[0] == path.segments@[k as int]@);
        let found = self.position(path.segments[k].as_str());
        match found {
            None => {},
            Some(i) => {
                let ghost old_slots = self.slots@;
                let ghost old_model = self@;
                assert(old_model.slots[i as int] == slot_model(old_slots[i as int]));
                assert(rest.drop_first() =~= path@.skip(k + 1));
                let last = k + 1 == path.segments.len();
                let slot = &mut self.slots[i];
                if last {
                    slot.state = FieldState::Leaf;
                } else {
                    match &slot.nested {
                        None => {},
                        Some(shape) => {
                            match &mut slot.state {
                                FieldState::Leaf => {},
                                FieldState::Nested(inner) => {
                                    inner.enable_from(path, k + 1);
                                },
                                FieldState::Unset => {
                                    let mut inner = Selector::new(shape);
                                    inner.enable_from(path, k + 1);
                                    slot.state = FieldState::Nested(inner);
                                },
                            }
                        },
                    }
                }
                assert(self.slots@ == old_slots.update(i as int, self.slots@[i as int]));
                assert(self@.slots =~= enable_m(old_model, rest).slots) by {
                    assert(forall|j: int|
                        0 <= j < self.slots@.len() && j != i ==> self@.slots[j] == slot_model(self.slots@[j]));
                    assert(self@.slots[i as int] == slot_model(self.slots@[i as int]));
                }
            },
        }
    }

    /// Whether the segments of `path` from the `k`-th on are enabled.
    fn contains_from(&self, path: &Path, k: usize) -> (r: bool)
        requires
            k <= path@.len(),
        ensures
            r == contains_m(self@, path@.skip(k as int)),
        decreases path@.len() - k,
    {
        let ghost rest = path@.skip(k as int);
        if k >= path.segments.len() {
            return false;
        }
        assert(rest[0] == path.segments@[k as int]@);
        match self.position(path.segments[k].as_str()) {
            None => false,
            Some(i) => {
                assert(self@.slots[i as int] == slot_model(self.slots@[i as int]));
                match &self.slots[i].state {
                    FieldState::Unset => false,
                    FieldState::Leaf => k + 1 == path.segments.len(),
                    FieldState::Nested(inner) => {
                        if k + 1 == path.segments.len() {
                            true
                        } else {
                            assert(rest.drop_first() =~= path@.skip(k + 1));
                            inner.contains_from(path, k + 1)
                        }
                    },
                }
            },
        }
    }

    /// Enables `path`: see `enable_m`.
    pub fn enable_path(&mut self, path: &Path)
        ensures
            final(self)@ == enable_m(old(self)@, path@),
    {
        assert(path@.skip(0) =~= path@);
        self.enable_from(path, 0);
    }

    /// Whether `path` is enabled: see `contains_m`.
    pub fn contains_path(&self, path: &Path) -> (r: bool)
        ensures
            r == contains_m(self@, path@),
    {
        assert(path@.skip(0) =~= path@);
        self.contains_from(path, 0)
    }

    /// Whether the field at the dotted path `field` is enabled.
    pub fn contains(&self, field: &str) -> (r: bool)
        ensures
            r == contains_m(self@, parse_path(field@)),
    {
        let path = Path::parse(field);
        self.contains_path(&path)
    }
}

/// A selector of fields: created for a shape with every field unset, then
/// filled by enabling paths.
pub trait FieldSelector: Sized {
    /// What the selector holds.
    spec fn selection(&self) -> SelectorModel;

    /// A selector for `shape` with every field unset.
    fn new(shape: &Shape) -> (r: Self)
        ensures
            r.selection() == fresh(shape@),
    ;

    /// Enables the field at the dotted path `field`, such as `"profile.bio"`.
    /// Malformed text and unknown field names change nothing.
    fn enable_dot_hierarchy(&mut self, field: &str)
        ensures
            final(self).selection() == enable_m(old(self).selection(), parse_path(field@)),
    ;

    /// Enables the field at the path given by its segments.
    fn enable(&mut self, field_hierarchy: &[&str])
        ensures
            final(self).selection() == enable_m(
                old(self).selection(),
                Seq::new(field_hierarchy@.len(), |i: int| field_hierarchy@[i]@),
            ),
    ;
}

impl FieldSelector for Selector {
    open spec fn selection(&self) -> SelectorModel {
        self@
    }

    fn new(shape: &Shape) -> (r: Selector) {
        let mut slots: Vec<Slot> = Vec::new();
        let mut i: usize = 0;
        while i < shape.fields.len()
            invariant
                i <= shape.fields@.len(),
                slots@.len() == i,
                forall|j: int|
                    0 <= j < i ==> #[trigger] slot_model(slots@[j]) == fresh(shape@).slots[j],
            decreases shape.fields@.len() - i,
        {
            let d = &shape.fields[i];
            let nested = match &d.nested {
                Some(n) => Some(n.duplicate()),
                None => None,
            };
            slots.push(Slot { name: d.name.clone(), nested, state: FieldState::Unset });
            i = i + 1;
        }
        let r = Selector { slots };
        assert forall|j: int| 0 <= j < r@.slots.len() implies r@.slots[j] == fresh(shape@).slots[j] by {
            assert(r@.slots[j] == slot_model(slots@[j]));
        }
        assert(r@.slots =~= fresh(shape@).slots);
        r
    }

    fn enable_dot_hierarchy(&mut self, field: &str) {
        let path = Path::parse(field);
        self.enable_path(&path);
    }

    fn enable(&mut self, field_hierarchy: &[&str]) {
        let path = Path::from_segments(field_hierarchy);
        self.enable_path(&path);
    }
}

} // verus!
