use serialize_fields::render::SerializeFields;
use serialize_fields::selector::{FieldSelector, Selector};
use serialize_fields::shape::Shape;
use serialize_fields::utils;
use serialize_fields::value::Value;

fn simple_shape() -> Shape {
    Shape::new().field("id").field("name").field("optional_field")
}

fn inner_shape() -> Shape {
    Shape::new().field("value").field("number")
}

fn nested_shape() -> Shape {
    Shape::new()
        .field("id")
        .nested("inner", inner_shape())
        .nested("optional_inner", inner_shape())
}

fn collection_shape() -> Shape {
    Shape::new().field("id").nested("items", inner_shape()).field("tags")
}

fn text(s: &str) -> Value {
    Value::Text(s.to_string())
}

fn record(entries: Vec<(&str, Value)>) -> Value {
    Value::Record(entries.into_iter().map(|(n, v)| (n.to_string(), v)).collect())
}

fn inner(value: &str, number: u64) -> Value {
    record(vec![("value", text(value)), ("number", Value::UInt(number))])
}

fn create_simple_struct() -> Value {
    record(vec![
        ("id", Value::UInt(123)),
        ("name", text("Test")),
        ("optional_field", text("Optional")),
    ])
}

fn create_nested_struct() -> Value {
    record(vec![
        ("id", Value::UInt(456)),
        ("inner", inner("Inner Value", 42)),
        ("optional_inner", inner("Optional Inner", 99)),
    ])
}

fn create_collection_struct() -> Value {
    record(vec![
        ("id", Value::UInt(789)),
        ("items", Value::List(vec![inner("Item 1", 1), inner("Item 2", 2)])),
        ("tags", Value::List(vec![text("tag1"), text("tag2")])),
    ])
}

#[test]
fn test_serialize_fields_trait() {
    let data = create_simple_struct();
    let mut selector = Selector::new(&simple_shape());
    selector.enable_dot_hierarchy("id");
    selector.enable_dot_hierarchy("name");

    let obj = SerializeFields(&data, &selector).render();
    assert_eq!(obj.len(), 2);
    assert_eq!(obj.get("id").unwrap().as_u64().unwrap(), 123);
    assert_eq!(obj.get("name").unwrap().as_str().unwrap(), "Test");
    assert!(!obj.contains_key("optional_field"));
}

#[test]
fn test_serialize_fields_trait_nested() {
    let data = create_nested_struct();
    let mut selector = Selector::new(&nested_shape());
    selector.enable_dot_hierarchy("id");
    selector.enable_dot_hierarchy("inner.value");

    let obj = SerializeFields(&data, &selector).render();
    assert_eq!(obj.len(), 2);
    assert_eq!(obj.get("id").unwrap().as_u64().unwrap(), 456);

    let inner = obj.get("inner").unwrap();
    assert_eq!(inner.len(), 1);
    assert_eq!(inner.get("value").unwrap().as_str().unwrap(), "Inner Value");
}

#[test]
fn test_simple_field_selection() {
    let data = create_simple_struct();
    let mut selector = Selector::new(&simple_shape());
    selector.enable_dot_hierarchy("id");
    selector.enable_dot_hierarchy("name");

    let obj = SerializeFields(&data, &selector).render();
    assert_eq!(obj.len(), 2);
    assert_eq!(obj.get("id").unwrap().as_u64().unwrap(), 123);
    assert_eq!(obj.get("name").unwrap().as_str().unwrap(), "Test");
    assert!(!obj.contains_key("optional_field"));
}

#[test]
fn test_no_fields_selected() {
    let data = create_simple_struct();
    let selector = Selector::new(&simple_shape());

    let obj = SerializeFields(&data, &selector).render();
    assert_eq!(obj.len(), 0);
}

#[test]
fn test_all_fields_selected() {
    let data = create_simple_struct();
    let mut selector = Selector::new(&simple_shape());
    selector.enable_dot_hierarchy("id");
    selector.enable_dot_hierarchy("name");
    selector.enable_dot_hierarchy("optional_field");

    let obj = SerializeFields(&data, &selector).render();
    assert_eq!(obj.len(), 3);
    assert_eq!(obj.get("id").unwrap().as_u64().unwrap(), 123);
    assert_eq!(obj.get("name").unwrap().as_str().unwrap(), "Test");
    assert_eq!(obj.get("optional_field").unwrap().as_str().unwrap(), "Optional");
}

#[test]
fn test_nested_field_selection() {
    let data = create_nested_struct();
    let mut selector = Selector::new(&nested_shape());
    selector.enable_dot_hierarchy("id");
    selector.enable_dot_hierarchy("inner.value");

    let obj = SerializeFields(&data, &selector).render();
    assert_eq!(obj.len(), 2);
    assert_eq!(obj.get("id").unwrap().as_u64().unwrap(), 456);

    let inner = obj.get("inner").unwrap();
    assert_eq!(inner.len(), 1);
    assert_eq!(inner.get("value").unwrap().as_str().unwrap(), "Inner Value");
    assert!(!inner.contains_key("number"));
}

#[test]
fn test_nested_all_fields() {
    let data = create_nested_struct();
    let mut selector = Selector::new(&nested_shape());
    selector.enable_dot_hierarchy("id");
    selector.enable_dot_hierarchy("inner.value");
    selector.enable_dot_hierarchy("inner.number");
    selector.enable_dot_hierarchy("optional_inner.value");

    let obj = SerializeFields(&data, &selector).render();
    assert_eq!(obj.len(), 3);

    let inner = obj.get("inner").unwrap();
    assert_eq!(inner.len(), 2);
    assert_eq!(inner.get("value").unwrap().as_str().unwrap(), "Inner Value");
    assert_eq!(inner.get("number").unwrap().as_u64().unwrap(), 42);

    let optional_inner = obj.get("optional_inner").unwrap();
    assert_eq!(optional_inner.len(), 1);
    assert_eq!(optional_inner.get("value").unwrap().as_str().unwrap(), "Optional Inner");
}

#[test]
fn test_collection_field_selection() {
    let data = create_collection_struct();
    let mut selector = Selector::new(&collection_shape());
    selector.enable_dot_hierarchy("id");
    selector.enable_dot_hierarchy("items.value");
    selector.enable_dot_hierarchy("tags");

    let obj = SerializeFields(&data, &selector).render();
    assert_eq!(obj.len(), 3);
    assert_eq!(obj.get("id").unwrap().as_u64().unwrap(), 789);

    let items = obj.get("items").unwrap();
    assert_eq!(items.len(), 2);

    let item1 = items.item(0).unwrap();
    assert_eq!(item1.len(), 1);
    assert_eq!(item1.get("value").unwrap().as_str().unwrap(), "Item 1");
    assert!(!item1.contains_key("number"));

    let tags = obj.get("tags").unwrap();
    assert_eq!(tags.len(), 2);
    assert_eq!(tags.item(0).unwrap().as_str().unwrap(), "tag1");
    assert_eq!(tags.item(1).unwrap().as_str().unwrap(), "tag2");
}

#[test]
fn test_enable_method_with_hierarchy() {
    let data = create_nested_struct();
    let mut selector = Selector::new(&nested_shape());
    selector.enable(&["id"]);
    selector.enable(&["inner", "value"]);

    let obj = SerializeFields(&data, &selector).render();
    assert_eq!(obj.len(), 2);
    assert_eq!(obj.get("id").unwrap().as_u64().unwrap(), 456);

    let inner = obj.get("inner").unwrap();
    assert_eq!(inner.len(), 1);
    assert_eq!(inner.get("value").unwrap().as_str().unwrap(), "Inner Value");
}

#[test]
fn test_field_selector_trait() {
    let mut selector = Selector::new(&simple_shape());

    selector.enable_dot_hierarchy("id");
    selector.enable(&["name"]);

    assert!(selector.contains("id"));
    assert!(selector.contains("name"));
    assert!(!selector.contains("optional_field"));
}

#[test]
fn test_utility_functions() {
    let fields = utils::parse_field_list("id,name,inner.value");
    assert_eq!(fields, vec!["id", "name", "inner.value"]);

    let selector: Selector = utils::create_selector_from_list(&simple_shape(), "id,name");

    assert!(selector.contains("id"));
    assert!(selector.contains("name"));
    assert!(!selector.contains("optional_field"));
}

#[test]
fn test_empty_field_hierarchy() {
    let mut selector = Selector::new(&simple_shape());

    selector.enable(&[]);

    assert!(!selector.contains("id"));
    assert!(!selector.contains("name"));
    assert!(!selector.contains("optional_field"));
}

#[test]
fn test_invalid_field_names() {
    let mut selector = Selector::new(&simple_shape());

    selector.enable_dot_hierarchy("nonexistent_field");
    selector.enable_dot_hierarchy("id.invalid_nested");

    selector.enable_dot_hierarchy("id");

    assert!(selector.contains("id"));
    assert!(!selector.contains("name"));
}

#[test]
fn test_json_roundtrip_compatibility() {
    let original = create_simple_struct();

    let mut selector = Selector::new(&simple_shape());
    selector.enable_dot_hierarchy("id");
    selector.enable_dot_hierarchy("name");
    selector.enable_dot_hierarchy("optional_field");

    let rendered = SerializeFields(&original, &selector).render();
    assert_eq!(original, rendered);
}
