use serialize_fields::combinators::{copy_selected, filter_field_set};
use serialize_fields::field_ref::FieldRef;
use serialize_fields::path::Path;
use serialize_fields::render::{render, SerializeFields};
use serialize_fields::selector::{FieldSelector, Selector};
use serialize_fields::shape::{nested_type_name, strip_raw_prefix, Shape, TypeExpr};
use serialize_fields::utils::{create_selector_from_list, parse_field_list};
use serialize_fields::value::Value;

fn text(s: &str) -> Value {
    Value::Text(s.to_string())
}

fn record(entries: Vec<(&str, Value)>) -> Value {
    Value::Record(entries.into_iter().map(|(n, v)| (n.to_string(), v)).collect())
}

fn inner_shape() -> Shape {
    Shape::new().field("value").field("number")
}

fn nested_shape() -> Shape {
    Shape::new()
        .field("id")
        .nested("inner", inner_shape())
        .nested("optional_inner", inner_shape())
}

fn nested_record(optional: Value) -> Value {
    record(vec![
        ("id", Value::UInt(456)),
        ("inner", record(vec![("value", text("V")), ("number", Value::UInt(42))])),
        ("optional_inner", optional),
    ])
}

fn segments(p: &Path) -> Vec<String> {
    p.segments.clone()
}

#[test]
fn scenario_a_simple_projection() {
    let shape = Shape::new().field("id").field("name").field("optional_field");
    let data = record(vec![
        ("id", Value::UInt(123)),
        ("name", text("Test")),
        ("optional_field", text("X")),
    ]);
    let mut sel = Selector::new(&shape);
    sel.enable_dot_hierarchy("id");
    sel.enable_dot_hierarchy("name");
    let expected = record(vec![("id", Value::UInt(123)), ("name", text("Test"))]);
    assert_eq!(render(&data, &sel), expected);
}

#[test]
fn scenario_b_nested_projection() {
    let mut sel = Selector::new(&nested_shape());
    sel.enable_dot_hierarchy("id");
    sel.enable_dot_hierarchy("inner.value");
    let expected = record(vec![
        ("id", Value::UInt(456)),
        ("inner", record(vec![("value", text("V"))])),
    ]);
    assert_eq!(render(&nested_record(Value::Null), &sel), expected);
}

#[test]
fn scenario_c_collection_projection() {
    let shape = Shape::new().nested("items", inner_shape());
    let data = record(vec![(
        "items",
        Value::List(vec![
            record(vec![("value", text("a")), ("number", Value::UInt(1))]),
            record(vec![("value", text("b")), ("number", Value::UInt(2))]),
        ]),
    )]);
    let mut sel = Selector::new(&shape);
    sel.enable_dot_hierarchy("items.value");
    let expected = record(vec![(
        "items",
        Value::List(vec![record(vec![("value", text("a"))]), record(vec![("value", text("b"))])]),
    )]);
    assert_eq!(render(&data, &sel), expected);
}

#[test]
fn scenario_d_one_path_many_names() {
    let shape = Shape::new().nested("profile", Shape::new().field("bio").field("avatar"));
    let table = [("profile.bio", vec!["bio", "biography"])];

    let mut on = Selector::new(&shape);
    on.enable_dot_hierarchy("profile.bio");
    let mut names = filter_field_set(&on, &table);
    names.sort();
    assert_eq!(names, vec!["bio".to_string(), "biography".to_string()]);

    let off = Selector::new(&shape);
    assert!(filter_field_set(&off, &table).is_empty());
}

#[test]
fn filter_field_set_collapses_repeats() {
    let shape = Shape::new().field("id").field("name");
    let mut sel = Selector::new(&shape);
    sel.enable_dot_hierarchy("id");
    sel.enable_dot_hierarchy("name");
    let names = filter_field_set(&sel, &[("id", vec!["key", "key"]), ("name", vec!["key"])]);
    assert_eq!(names, vec!["key".to_string()]);
}

#[test]
fn enabling_twice_changes_nothing() {
    let data = nested_record(Value::Null);
    let mut once = Selector::new(&nested_shape());
    once.enable_dot_hierarchy("inner.value");
    let mut twice = Selector::new(&nested_shape());
    twice.enable_dot_hierarchy("inner.value");
    twice.enable_dot_hierarchy("inner.value");
    assert_eq!(render(&data, &once), render(&data, &twice));
    assert!(twice.contains("inner.value"));
    assert!(!twice.contains("inner.number"));
}

#[test]
fn fresh_selector_renders_nothing() {
    let sel = Selector::new(&nested_shape());
    assert_eq!(render(&nested_record(Value::Null), &sel), record(vec![]));
    assert!(!sel.contains("id"));
    assert!(!sel.contains("inner.value"));
    assert!(!sel.contains(""));
}

#[test]
fn unknown_field_is_ignored() {
    let data = nested_record(Value::Null);
    let mut sel = Selector::new(&nested_shape());
    sel.enable_dot_hierarchy("id");
    let before = render(&data, &sel);
    sel.enable_path(&Path::parse("does_not_exist"));
    assert_eq!(render(&data, &sel), before);
}

#[test]
fn declared_order_is_kept() {
    let shape = Shape::new().field("id").field("name");
    let data = record(vec![("id", Value::UInt(1)), ("name", text("n"))]);
    let mut sel = Selector::new(&shape);
    sel.enable_dot_hierarchy("name");
    sel.enable_dot_hierarchy("id");
    assert_eq!(render(&data, &sel), record(vec![("id", Value::UInt(1)), ("name", text("n"))]));
}

#[test]
fn whole_nested_field_is_kept_as_is() {
    let data = nested_record(Value::Null);
    let mut sel = Selector::new(&nested_shape());
    sel.enable_dot_hierarchy("inner.value");
    sel.enable_dot_hierarchy("inner");
    let expected = record(vec![(
        "inner",
        record(vec![("value", text("V")), ("number", Value::UInt(42))]),
    )]);
    assert_eq!(render(&data, &sel), expected);
    assert!(sel.contains("inner"));
    assert!(!sel.contains("inner.value"));
}

#[test]
fn absent_optional_record_renders_null() {
    let mut sel = Selector::new(&nested_shape());
    sel.enable_dot_hierarchy("optional_inner.value");
    let out = render(&nested_record(Value::Null), &sel);
    assert_eq!(out, record(vec![("optional_inner", Value::Null)]));
    assert!(out.get("optional_inner").unwrap().is_null());
}

#[test]
fn empty_collection_stays_empty() {
    let shape = Shape::new().nested("items", inner_shape());
    let data = record(vec![("items", Value::List(vec![]))]);
    let mut sel = Selector::new(&shape);
    sel.enable_dot_hierarchy("items.value");
    assert_eq!(render(&data, &sel), record(vec![("items", Value::List(vec![]))]));
}

#[test]
fn path_on_scalar_field_is_ignored() {
    let mut sel = Selector::new(&nested_shape());
    sel.enable_dot_hierarchy("id.deeper");
    assert!(!sel.contains("id"));
}

#[test]
fn path_parsing() {
    assert_eq!(segments(&Path::parse("a.b.c")), vec!["a", "b", "c"]);
    assert!(Path::parse("").is_empty());
    assert!(Path::parse("a..b").is_empty());
    assert!(Path::parse(".a").is_empty());
    assert!(Path::parse("a.").is_empty());
    let p = Path::from_segments(&["x", "y"]);
    assert_eq!(p.len(), 2);
    assert_eq!(p.head().unwrap(), "x");
    assert_eq!(segments(&p.tail()), vec!["y"]);
    assert!(p.tail().tail().is_empty());
    assert!(Path::empty().head().is_none());
}

#[test]
fn field_list_trims_and_drops_empty_entries() {
    assert_eq!(parse_field_list(" id ,\tname,, profile.bio ,"), vec!["id", "name", "profile.bio"]);
    assert_eq!(parse_field_list("id,id"), vec!["id", "id"]);
    assert!(parse_field_list("").is_empty());
    assert!(parse_field_list(" , ").is_empty());
}

#[test]
fn selector_from_list() {
    let sel: Selector = create_selector_from_list(&nested_shape(), " id , inner.number ");
    assert!(sel.contains("id"));
    assert!(sel.contains("inner.number"));
    assert!(!sel.contains("inner.value"));
}

#[test]
fn raw_identifiers() {
    assert_eq!(strip_raw_prefix("r#type"), "type");
    assert_eq!(strip_raw_prefix("rtype"), "rtype");
    assert_eq!(strip_raw_prefix("r#"), "");
    let mut sel = Selector::new(&Shape::new().field("r#type"));
    sel.enable_dot_hierarchy("type");
    assert!(sel.contains("type"));
}

fn path_type(name: &str, arg: Option<TypeExpr>) -> TypeExpr {
    TypeExpr::Path(name.to_string(), arg.map(Box::new))
}

#[test]
fn field_type_classification() {
    assert_eq!(nested_type_name(&path_type("u32", None)), None);
    assert_eq!(nested_type_name(&path_type("String", None)), None);
    assert_eq!(nested_type_name(&path_type("Inner", None)), Some("Inner".to_string()));
    let vec_inner = path_type("Vec", Some(path_type("Inner", None)));
    assert_eq!(nested_type_name(&vec_inner), Some("Inner".to_string()));
    let opt_vec = path_type("Option", Some(path_type("Vec", Some(path_type("Inner", None)))));
    assert_eq!(nested_type_name(&opt_vec), Some("Inner".to_string()));
    let opt_tags = path_type("Option", Some(path_type("Vec", Some(path_type("String", None)))));
    assert_eq!(nested_type_name(&opt_tags), None);
    assert_eq!(nested_type_name(&path_type("Vec", None)), None);
    assert_eq!(nested_type_name(&path_type("Box", Some(path_type("Inner", None)))), None);
    let array = TypeExpr::Array(Box::new(path_type("Inner", None)));
    assert_eq!(nested_type_name(&array), Some("Inner".to_string()));
    assert_eq!(nested_type_name(&TypeExpr::Tuple), None);
    assert_eq!(nested_type_name(&TypeExpr::Other), None);
}

#[test]
fn field_refs_round_trip() {
    let shape = nested_shape();
    let refs = vec![
        FieldRef::Field(0),
        FieldRef::Nested(1, Box::new(FieldRef::Field(0))),
        FieldRef::Nested(1, Box::new(FieldRef::Field(1))),
        FieldRef::Nested(2, Box::new(FieldRef::Field(1))),
    ];
    let expected = ["id", "inner.value", "inner.number", "optional_inner.number"];
    for (r, text) in refs.iter().zip(expected.iter()) {
        let path = shape.field_path(r);
        let dotted = path.to_dotted();
        assert_eq!(dotted, *text);
        let back = shape.parse_field(&dotted).ok().unwrap();
        assert_eq!(shape.field_path(&back).segments, path.segments);
    }
}

#[test]
fn unknown_field_error() {
    let shape = nested_shape();
    assert_eq!(shape.parse_field("nope").err().unwrap().path, "nope");
    assert!(shape.parse_field("inner").is_err());
    assert!(shape.parse_field("id.value").is_err());
    assert!(shape.parse_field("inner.missing").is_err());
    assert!(shape.parse_field("").is_err());
}

#[test]
fn enable_by_field_ref() {
    let mut sel = Selector::new(&nested_shape());
    sel.enable_field(&FieldRef::Nested(1, Box::new(FieldRef::Field(1))));
    assert!(sel.contains("inner.number"));
    assert!(!sel.contains("inner.value"));
    assert!(!sel.contains("id"));
}

#[test]
fn copy_selected_skips_disabled_fields() {
    let mut sel = Selector::new(&nested_shape());
    sel.enable_dot_hierarchy("id");
    let id: Option<u32> = copy_selected(&sel, "id", || Some(7));
    assert_eq!(id, Some(7));
    let never: Option<u32> = copy_selected(&sel, "inner", || panic!("not enabled"));
    assert_eq!(never, None);
}

#[test]
fn wrapper_renders_like_render() {
    let data = nested_record(Value::Null);
    let mut sel = Selector::new(&nested_shape());
    sel.enable_dot_hierarchy("inner.number");
    assert_eq!(SerializeFields(&data, &sel).render(), render(&data, &sel));
    assert_eq!(
        render(&data, &sel),
        record(vec![("inner", record(vec![("number", Value::UInt(42))]))])
    );
}

#[test]
fn dotted_text_of_paths() {
    assert_eq!(Path::from_segments(&["a", "b", "c"]).to_dotted(), "a.b.c");
    assert_eq!(Path::from_segments(&["a"]).to_dotted(), "a");
    assert_eq!(Path::empty().to_dotted(), "");
    assert_eq!(segments(&Path::parse(&Path::from_segments(&["x", "yz"]).to_dotted())), vec!["x", "yz"]);
}

#[test]
fn declaring_fields_by_type() {
    let inner = inner_shape();
    let known = [("Inner", &inner)];
    let mut shape = Shape::new();
    shape.declare("id", &path_type("u32", None), &known).ok().unwrap();
    shape.declare("r#type", &path_type("String", None), &known).ok().unwrap();
    let items = path_type("Vec", Some(path_type("Inner", None)));
    shape.declare("items", &items, &known).ok().unwrap();
    let err = shape.declare("other", &path_type("Missing", None), &known).err().unwrap();
    assert_eq!(err.name, "Missing");
    assert_eq!(shape.fields.len(), 3);
    assert_eq!(shape.fields[1].name, "type");
    assert!(shape.fields[0].nested.is_none());
    assert_eq!(shape.fields[2].nested.as_ref().unwrap().fields.len(), 2);

    let mut sel = Selector::new(&shape);
    sel.enable_dot_hierarchy("items.number");
    sel.enable_dot_hierarchy("type");
    assert!(sel.contains("items.number"));
    assert!(sel.contains("type"));
    assert!(!sel.contains("other"));
}
