//! Typed field references: one per field of a shape whose values are not
//! records, reaching it through the nested fields that lead to it.

use vstd::prelude::*;

use crate::path::{parse_path, Path};
use crate::selector::{enable_m, slot_model, Selector, SelectorModel};
use crate::shape::{decl_names, first_index, shape_model, DeclModel, FieldDecl, Shape, ShapeModel};

verus! {

/// A reference to a field: `Field(i)` is the `i`-th field of a shape, and
/// `Nested(i, r)` is the field that `r` refers to within the records held by
/// the `i`-th field.
pub enum FieldRef {
    Field(usize),
    Nested(usize, Box<FieldRef>),
}

/// The field indices that a reference goes through, outermost first.
pub open spec fn ref_indices(r: FieldRef) -> Seq<int>
    decreases r,
{
    match r {
        FieldRef::Field(i) => seq![i as int],
        FieldRef::Nested(i, rest) => seq![i as int] + ref_indices(*rest),
    }
}

impl View for FieldRef {
    type V = Seq<int>;

    open spec fn view(&self) -> Seq<int> {
        ref_indices(*self)
    }
}

/// Whether the indices `ix` name a field of `shape` whose values are not
/// records, through fields whose values are.
pub open spec fn valid_ref(shape: ShapeModel, ix: Seq<int>) -> bool
    decreases ix.len(),
{
    &&& ix.len() > 0
    &&& 0 <= ix[0] < shape.fields.len()
    &&& match shape.fields[ix[0]].nested {
        None => ix.len() == 1,
        Some(inner) => ix.len() > 1 && valid_ref(inner, ix.drop_first()),
    }
}

/// The names of the fields that the indices `ix` go through.
pub open spec fn ref_path(shape: ShapeModel, ix: Seq<int>) -> Seq<Seq<char>>
    decreases ix.len(),
{
    if ix.len() == 0 || !(0 <= ix[0] < shape.fields.len()) {
        Seq::empty()
    } else {
        let d = shape.fields[ix[0]];
        match d.nested {
            Some(inner) => seq![d.name] + ref_path(inner, ix.drop_first()),
            None => seq![d.name],
        }
    }
}

/// The reference that `path` spells in `shape`, field by field (the first
/// field of each name counts), if it ends at a field whose values are not
/// records.
pub open spec fn parse_ref(shape: ShapeModel, path: Seq<Seq<char>>) -> Option<Seq<int>>
    decreases path.len(),
{
    if path.len() == 0 {
        None
    } else {
        let i = first_index(decl_names(shape), path[0]);
        if i < 0 {
            None
        } else {
            match shape.fields[i].nested {
                None => if path.len() == 1 {
                    Some(seq![i])
                } else {
                    None
                },
                Some(inner) => if path.len() == 1 {
                    None
                } else {
                    match parse_ref(inner, path.drop_first()) {
                        Some(rest) => Some(seq![i] + rest),
                        None => None,
                    }
                },
            }
        }
    }
}

/// The shape that a selector was made for.
pub open spec fn shape_of(s: SelectorModel) -> ShapeModel {
    ShapeModel {
        fields: Seq::new(
            s.slots.len(),
            |i: int| DeclModel { name: s.slots[i].name, nested: s.slots[i].nested },
        ),
    }
}

/// A dotted path that names no field reference of a shape.
pub struct UnknownField {
    pub path: String,
}

impl Shape {
    /// The reference spelled by the segments of `path` from the `k`-th on.
    fn parse_from(&self, path: &Path, k: usize) -> (r: Option<FieldRef>)
        requires
            k <= path@.len(),
        ensures
            match r {
                Some(f) => parse_ref(self@, path@.skip(k as int)) == Some(f@),
                None => parse_ref(self@, path@.skip(k as int)) is None,
            },
        decreases path@.len() - k,
    {
        let ghost rest = path@.skip(k as int);
        if k >= path.segments.len() {
            return None;
        }
        assert(rest[0] == path.segments@[k as int]@);
        match self.position(path.segments[k].as_str()) {
            None => None,
            Some(i) => {
                let last = k + 1 == path.segments.len();
                match &self.fields[i].nested {
                    None => {
                        if last {
                            Some(FieldRef::Field(i))
                        } else {
                            None
                        }
                    },
                    Some(inner) => {
                        if last {
                            None
                        } else {
                            assert(rest.drop_first() =~= path@.skip(k + 1));
                            match inner.parse_from(path, k + 1) {
                                Some(f) => Some(FieldRef::Nested(i, Box::new(f))),
                                None => None,
                            }
                        }
                    },
                }
            },
        }
    }

    /// The field reference that the dotted path `text` names, such as
    /// `"inner.value"`; `UnknownField` when it names none.
    pub fn parse_field(&self, text: &str) -> (r: Result<FieldRef, UnknownField>)
        ensures
            match r {
                Ok(f) => parse_ref(self@, parse_path(text@)) == Some(f@),
                Err(e) => parse_ref(self@, parse_path(text@)) is None && e.path@ == text@,
            },
    {
        let path = Path::parse(text);
        assert(path@.skip(0) =~= path@);
        match self.parse_from(&path, 0) {
            Some(f) => Ok(f),
            None => Err(UnknownField { path: text.to_owned() }),
        }
    }

    /// The path of the field that `f` refers to.
    pub fn field_path(&self, f: &FieldRef) -> (r: Path)
        requires
            valid_ref(self@, f@),
        ensures
            r@ == ref_path(self@, f@),
        decreases f,
    {
        let ghost ix = f@;
        match f {
            FieldRef::Field(i) => {
                let mut segments: Vec<String> = Vec::new();
                segments.push(self.fields[*i].name.clone());
                let r = Path { segments };
                assert(r@ =~= ref_path(self@, ix));
                r
            },
            FieldRef::Nested(i, rest) => {
                let d = &self.fields[*i];
                assert(ix.drop_first() =~= rest@);
                match &d.nested {
                    Some(inner) => {
                        let tail = inner.field_path(rest);
                        let mut segments: Vec<String> = Vec::new();
                        segments.push(d.name.clone());
                        let mut j: usize = 0;
                        while j < tail.segments.len()
                            invariant
                                j <= tail@.len(),
                                segments@.len() == j + 1,
                                segments@[0]@ == d.name@,
                                forall|t: int|
                                    0 <= t < j ==> #[trigger] segments@[t + 1]@ == tail@[t],
                            decreases tail@.len() - j,
                        {
                            segments.push(tail.segments[j].clone());
                            j = j + 1;
                        }
                        let r = Path { segments };
                        assert forall|t: int| 1 <= t < r@.len() implies r@[t] == (seq![d.name@] + tail@)[t] by {
                            assert(segments@[(t - 1) + 1]@ == tail@[t - 1]);
                        }
                        assert(r@ =~= seq![d.name@] + tail@);
                        r
                    },
                    None => {
                        assert(false);
                        Path::empty()
                    },
                }
            },
        }
    }
}

impl Selector {
    /// The shape that this selector was made for.
    pub fn shape(&self) -> (r: Shape)
        ensures
            r@ == shape_of(self@),
    {
        let mut fields: Vec<FieldDecl> = Vec::new();
        let mut i: usize = 0;
        while i < self.slots.len()
            invariant
                i <= self.slots@.len(),
                fields@.len() == i,
                forall|j: int|
                    0 <= j < i ==> shape_model(Shape { fields }).fields[j] == #[trigger] shape_of(self@).fields[j],
            decreases self.slots@.len() - i,
        {
            let sl = &self.slots[i];
            assert(self@.slots[i as int] == slot_model(*sl));
            let nested = match &sl.nested {
                Some(n) => Some(n.duplicate()),
                None => None,
            };
            fields.push(FieldDecl { name: sl.name.clone(), nested });
            i = i + 1;
        }
        let r = Shape { fields };
        assert(r@.fields =~= shape_of(self@).fields);
        r
    }

    /// Enables the field that `f` refers to, without spelling its path as
    /// text.
    pub fn enable_field(&mut self, f: &FieldRef)
        requires
            valid_ref(shape_of(old(self)@), f@),
        ensures
            final(self)@ == enable_m(old(self)@, ref_path(shape_of(old(self)@), f@)),
    {
        let path = self.shape().field_path(f);
        self.enable_path(&path);
    }
}

} // verus!
