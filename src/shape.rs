//! Record shapes: the declared fields of a record type, and for each field
//! whether its values are themselves records (directly, optionally, or as the
//! items of a collection) and of which shape.

use vstd::prelude::*;

use crate::text::same_text;

verus! {

/// The name a declared identifier stands for: a raw identifier `r#type` names
/// the field `type`.
pub open spec fn unraw(s: Seq<char>) -> Seq<char> {
    if s.len() >= 2 && s[0] == 'r' && s[1] == '#' {
        s.skip(2)
    } else {
        s
    }
}

/// Removes the `r#` prefix of a raw identifier.
pub fn strip_raw_prefix(s: &str) -> (r: String)
    ensures
        r@ == unraw(s@),
{
    let n = s.unicode_len();
    if n >= 2 && s.get_char(0) == 'r' && s.get_char(1) == '#' {
        s.substring_char(2, n).to_owned()
    } else {
        s.to_owned()
    }
}

/// The index of the first of `names` equal to `name`, or -1 when none is.
pub open spec fn first_index(names: Seq<Seq<char>>, name: Seq<char>) -> int
    decreases names.len(),
{
    if names.len() == 0 {
        -1
    } else {
        let j = first_index(names.drop_last(), name);
        if j >= 0 {
            j
        } else if names.last() == name {
            names.len() - 1
        } else {
            -1
        }
    }
}

/// `first_index` finds the first match, and -1 means that nothing matches.
pub proof fn lemma_first_index(names: Seq<Seq<char>>, name: Seq<char>)
    ensures
        -1 <= first_index(names, name) < names.len(),
        first_index(names, name) >= 0 ==> names[first_index(names, name)] == name,
        forall|j: int|
            0 <= j < names.len() && (j < first_index(names, name) || first_index(names, name) < 0)
                ==> names[j] != name,
    decreases names.len(),
{
    if names.len() > 0 {
        lemma_first_index(names.drop_last(), name);
        assert(forall|j: int| 0 <= j < names.len() - 1 ==> names.drop_last()[j] == names[j]);
    }
}

/// The first index of `name` in `names` is `i` when `names[i]` is the first
/// match.
pub proof fn lemma_first_index_at(names: Seq<Seq<char>>, name: Seq<char>, i: int)
    requires
        0 <= i < names.len(),
        names[i] == name,
        forall|j: int| 0 <= j < i ==> names[j] != name,
    ensures
        first_index(names, name) == i,
{
    lemma_first_index(names, name);
}

/// A declared field as the contracts see it.
pub struct DeclModel {
    pub name: Seq<char>,
    pub nested: Option<ShapeModel>,
}

/// A record shape as the contracts see it.
pub struct ShapeModel {
    pub fields: Seq<DeclModel>,
}

/// The field names of a shape, in declared order.
pub open spec fn decl_names(s: ShapeModel) -> Seq<Seq<char>> {
    Seq::new(s.fields.len(), |i: int| s.fields[i].name)
}

/// The declared fields of a record type, in declared order.
pub struct Shape {
    pub fields: Vec<FieldDecl>,
}

/// One declared field: its name, and the shape of the records that its
/// values hold, if they hold records.
pub struct FieldDecl {
    pub name: String,
    pub nested: Option<Shape>,
}

pub open spec fn shape_model(s: Shape) -> ShapeModel
    decreases s,
{
    ShapeModel {
        fields: Seq::new(
            s.fields@.len(),
            |i: int|
                if 0 <= i < s.fields@.len() {
                    DeclModel {
                        name: s.fields@[i].name@,
                        nested: match s.fields@[i].nested {
                            Some(n) => Some(shape_model(n)),
                            None => None,
                        },
                    }
                } else {
                    DeclModel { name: Seq::empty(), nested: None }
                },
        ),
    }
}

impl View for Shape {
    type V = ShapeModel;

    open spec fn view(&self) -> ShapeModel {
        shape_model(*self)
    }
}

impl Shape {
    /// The shape of a record with no field.
    pub fn new() -> (r: Shape)
        ensures
            r@.fields.len() == 0,
    {
        Shape { fields: Vec::new() }
    }

    /// This shape with a field appended whose values are not records. A raw
    /// identifier `r#name` declares the field `name`.
    pub fn field(self, ident: &str) -> (r: Shape)
        ensures
            r@.fields == self@.fields.push(DeclModel { name: unraw(ident@), nested: None }),
    {
        let mut fields = self.fields;
        fields.push(FieldDecl { name: strip_raw_prefix(ident), nested: None });
        let r = Shape { fields };
        assert(r@.fields =~= self@.fields.push(DeclModel { name: unraw(ident@), nested: None }));
        r
    }

    /// This shape with a field appended whose values are records of shape
    /// `nested` (or optional records, or collections of them).
    pub fn nested(self, ident: &str, nested: Shape) -> (r: Shape)
        ensures
            r@.fields == self@.fields.push(
                DeclModel { name: unraw(ident@), nested: Some(nested@) },
            ),
    {
        let ghost inner = nested@;
        let mut fields = self.fields;
        fields.push(FieldDecl { name: strip_raw_prefix(ident), nested: Some(nested) });
        let r = Shape { fields };
        assert(r@.fields =~= self@.fields.push(
            DeclModel { name: unraw(ident@), nested: Some(inner) },
        ));
        r
    }

    /// A copy of this shape.
    pub fn duplicate(&self) -> (r: Shape)
        ensures
            r@ == self@,
        decreases self,
    {
        let mut fields: Vec<FieldDecl> = Vec::new();
        let mut i: usize = 0;
        while i < self.fields.len()
            invariant
                i <= self.fields@.len(),
                fields@.len() == i,
                forall|j: int|
                    0 <= j < i ==> shape_model(Shape { fields }).fields[j] == #[trigger] self@.fields[j],
            decreases self.fields@.len() - i,
        {
            let d = &self.fields[i];
            let nested = match &d.nested {
                Some(n) => {
                    assert(decreases_to!(*self => self.fields@[i as int].nested->0));
                    Some(n.duplicate())
                },
                None => None,
            };
            fields.push(FieldDecl { name: d.name.clone(), nested });
            i = i + 1;
        }
        let r = Shape { fields };
        assert(r@.fields =~= self@.fields);
        r
    }

    /// The index of the first field named `name`, if any.
    pub fn position(&self, name: &str) -> (r: Option<usize>)
        ensures
            r is Some <==> first_index(decl_names(self@), name@) >= 0,
            r is Some ==> r->0 == first_index(decl_names(self@), name@) && r->0 < self.fields@.len(),
    {
        let ghost names = decl_names(self@);
        let mut i: usize = 0;
        while i < self.fields.len()
            invariant
                i <= self.fields@.len(),
                names == decl_names(self@),
                forall|j: int| 0 <= j < i ==> names[j] != name@,
            decreases self.fields@.len() - i,
        {
            if same_text(self.fields[i].name.as_str(), name) {
                proof {
                    lemma_first_index_at(names, name@, i as int);
                }
                return Some(i);
            }
            i = i + 1;
        }
        proof {
            lemma_first_index(names, name@);
        }
        None
    }
}

/// A field's declared type, as far as classifying it needs: a path type
/// (`Vec<Inner>`, `u32`) by the identifier of its last segment and the first
/// type argument of that segment, an array type by its element type, or a
/// tuple or any other type.
pub enum TypeExpr {
    Path(String, Option<Box<TypeExpr>>),
    Array(Box<TypeExpr>),
    Tuple,
    Other,
}

/// Type names whose values are never records: the primitive types, `String`,
/// a few std types, and the wrappers that are not looked into.
pub open spec fn leaf_type_name(n: Seq<char>) -> bool {
    n == "u8"@ || n == "u16"@ || n == "u32"@ || n == "u64"@ || n == "u128"@ || n == "usize"@
        || n == "i8"@ || n == "i16"@ || n == "i32"@ || n == "i64"@ || n == "i128"@ || n
        == "isize"@ || n == "f32"@ || n == "f64"@ || n == "bool"@ || n == "char"@ || n
        == "String"@ || n == "PathBuf"@ || n == "SystemTime"@ || n == "Duration"@ || n
        == "Result"@ || n == "Box"@ || n == "Rc"@ || n == "Arc"@
}

/// Type names of the containers whose first type argument is looked into.
pub open spec fn container_type_name(n: Seq<char>) -> bool {
    n == "Option"@ || n == "Vec"@ || n == "HashMap"@ || n == "BTreeMap"@ || n == "HashSet"@
        || n == "BTreeSet"@
}

/// The name of the record type that values of type `t` hold, directly or
/// through containers and arrays; `None` when they hold no record. Any path
/// type that is neither a leaf type nor a container is taken for a record.
pub open spec fn nested_type(t: TypeExpr) -> Option<Seq<char>>
    decreases t,
{
    match t {
        TypeExpr::Path(name, arg) => if leaf_type_name(name@) {
            None
        } else if container_type_name(name@) {
            match arg {
                Some(a) => nested_type(*a),
                None => None,
            }
        } else {
            Some(name@)
        },
        TypeExpr::Array(elem) => nested_type(*elem),
        _ => None,
    }
}

fn is_leaf_type_name(n: &str) -> (r: bool)
    ensures
        r == leaf_type_name(n@),
{
    same_text(n, "u8") || same_text(n, "u16") || same_text(n, "u32") || same_text(n, "u64")
        || same_text(n, "u128") || same_text(n, "usize") || same_text(n, "i8") || same_text(
        n,
        "i16",
    ) || same_text(n, "i32") || same_text(n, "i64") || same_text(n, "i128") || same_text(
        n,
        "isize",
    ) || same_text(n, "f32") || same_text(n, "f64") || same_text(n, "bool") || same_text(
        n,
        "char",
    ) || same_text(n, "String") || same_text(n, "PathBuf") || same_text(n, "SystemTime")
        || same_text(n, "Duration") || same_text(n, "Result") || same_text(n, "Box")
        || same_text(n, "Rc") || same_text(n, "Arc")
}

fn is_container_type_name(n: &str) -> (r: bool)
    ensures
        r == container_type_name(n@),
{
    same_text(n, "Option") || same_text(n, "Vec") || same_text(n, "HashMap") || same_text(
        n,
        "BTreeMap",
    ) || same_text(n, "HashSet") || same_text(n, "BTreeSet")
}

/// The name of the record type that values of type `ty` hold, if any: see
/// `nested_type`.
pub fn nested_type_name(ty: &TypeExpr) -> (r: Option<String>)
    ensures
        match r {
            Some(n) => nested_type(*ty) == Some(n@),
            None => nested_type(*ty) is None,
        },
    decreases ty,
{
    match ty {
        TypeExpr::Path(name, arg) => {
            if is_leaf_type_name(name.as_str()) {
                None
            } else if is_container_type_name(name.as_str()) {
                match arg {
                    Some(a) => nested_type_name(a),
                    None => None,
                }
            } else {
                Some(name.clone())
            }
        },
        TypeExpr::Array(elem) => nested_type_name(elem),
        _ => None,
    }
}

/// A field type naming a record type for which no shape is known.
pub struct UnknownType {
    pub name: String,
}

/// The names of a list of known record shapes.
pub open spec fn known_names(known: Seq<(&str, &Shape)>) -> Seq<Seq<char>> {
    Seq::new(known.len(), |k: int| known[k].0@)
}

/// The index of the first known shape named `name`, if any.
fn known_position(known: &[(&str, &Shape)], name: &str) -> (r: Option<usize>)
    ensures
        r is Some <==> first_index(known_names(known@), name@) >= 0,
        r is Some ==> r->0 == first_index(known_names(known@), name@) && r->0 < known@.len(),
{
    let ghost names = known_names(known@);
    let mut k: usize = 0;
    while k < known.len()
        invariant
            names == known_names(known@),
            k <= known@.len(),
            forall|j: int| 0 <= j < k ==> names[j] != name@,
        decreases known@.len() - k,
    {
        if same_text(known[k].0, name) {
            proof {
                lemma_first_index_at(names, name@, k as int);
            }
            return Some(k);
        }
        k = k + 1;
    }
    proof {
        lemma_first_index(names, name@);
    }
    None
}

impl Shape {
    /// Appends the field declared as `ident: ty`. Its name is `ident` without
    /// a raw prefix; when `ty` holds records of a type (see `nested_type`),
    /// the field takes that type's shape from `known`, and a type missing
    /// there is an `UnknownType` error that leaves this shape as it was.
    pub fn declare(&mut self, ident: &str, ty: &TypeExpr, known: &[(&str, &Shape)]) -> (r: Result<
        (),
        UnknownType,
    >)
        ensures
            match nested_type(*ty) {
                None => r is Ok && final(self)@.fields == old(self)@.fields.push(
                    DeclModel { name: unraw(ident@), nested: None },
                ),
                Some(tn) => {
                    let k = first_index(known_names(known@), tn);
                    if k < 0 {
                        &&& final(self)@ == old(self)@
                        &&& r matches Err(e) && e.name@ == tn
                    } else {
                        &&& r is Ok
                        &&& final(self)@.fields == old(self)@.fields.push(
                            DeclModel { name: unraw(ident@), nested: Some(known@[k].1@) },
                        )
                    }
                },
            },
    {
        let nested = match nested_type_name(ty) {
            None => None,
            Some(tn) => {
                match known_position(known, tn.as_str()) {
                    Some(k) => Some(known[k].1.duplicate()),
                    None => {
                        return Err(UnknownType { name: tn });
                    },
                }
            },
        };
        let ghost before = self@.fields;
        let ghost inner = match &nested {
            Some(n) => Some(n@),
            None => None::<ShapeModel>,
        };
        self.fields.push(FieldDecl { name: strip_raw_prefix(ident), nested });
        assert(self@.fields =~= before.push(DeclModel { name: unraw(ident@), nested: inner }));
        Ok(())
    }
}

} // verus!
