//! Field maps and visitors.

use tracing_ext::extension::Visit;
use tracing_ext::fields::{Field, FieldMap};
use tracing_ext::store::SpanStore;
use tracing_ext::sub::{EventVisitor, SpanExtAttrs, SpanExtTiming, SpanExtension};

fn field(name: &str, value: &str) -> Field {
    Field { name: name.to_string(), value: value.to_string() }
}

fn names(map: &FieldMap) -> Vec<String> {
    map.entries().iter().map(|f| f.name.clone()).collect()
}

#[test]
fn a_map_keeps_the_order_of_first_insertion() {
    let mut map = FieldMap::new();
    assert_eq!(map.len(), 0);
    map.insert("b", "1".to_string());
    map.insert("a", "2".to_string());
    map.insert("b", "3".to_string());
    assert_eq!(map.len(), 2);
    assert_eq!(names(&map), vec!["b".to_string(), "a".to_string()]);
    assert_eq!(map.get("b"), Some("3"));
    assert_eq!(map.get("a"), Some("2"));
    assert_eq!(map.get("c"), None);
    assert!(map.contains("a"));
    assert!(!map.contains("c"));
}

#[test]
fn without_drops_one_name() {
    let mut map = FieldMap::new();
    map.insert("x", "1".to_string());
    map.insert("message", "hello".to_string());
    map.insert("y", "2".to_string());
    let rest = map.without("message");
    assert_eq!(names(&rest), vec!["x".to_string(), "y".to_string()]);
    assert_eq!(rest.get("x"), Some("1"));
    assert_eq!(rest.get("y"), Some("2"));
    assert_eq!(map.len(), 3);
    assert_eq!(map.without("absent").len(), 3);
}

#[test]
fn the_visitor_finds_the_message() {
    let payload = vec![
        field("field1", "\"Field 1\""),
        field("message", "Test initialized"),
    ];
    let visitor = EventVisitor::record_event(&payload);
    assert!(visitor.has_message());
    assert_eq!(visitor.message(), "Test initialized");
}

#[test]
fn meta_fields_never_hold_the_message() {
    let payload = vec![
        field("message", "first"),
        field("c", "3"),
        field("message", "second"),
        field("d", "4"),
    ];
    let visitor = EventVisitor::record_event(&payload);
    assert_eq!(visitor.message(), "second");
    let meta = visitor.meta_fields();
    assert!(!meta.contains("message"));
    assert_eq!(names(&meta), vec!["c".to_string(), "d".to_string()]);
    assert_eq!(meta.get("c"), Some("3"));
    assert_eq!(meta.get("d"), Some("4"));
}

#[test]
fn a_visitor_without_message_says_so() {
    let visitor = EventVisitor::record_event(&vec![field("c", "3")]);
    assert!(!visitor.has_message());
    assert_eq!(visitor.meta_fields().len(), 1);
    assert!(!EventVisitor::default().has_message());
}

#[test]
fn record_debug_keeps_the_last_value() {
    let mut visitor = EventVisitor::default();
    visitor.record_debug("message", "one".to_string());
    visitor.record_debug("message", "two".to_string());
    assert_eq!(visitor.message(), "two");
    let mut attrs = SpanExtAttrs::default();
    assert_eq!(attrs.attrs().len(), 0);
    attrs.record_debug("a", "1".to_string());
    attrs.record_debug("b", "2".to_string());
    attrs.record_debug("a", "3".to_string());
    assert_eq!(attrs.attrs().len(), 2);
    assert_eq!(attrs.attrs().get("a"), Some("3"));
    assert_eq!(attrs.attrs().get("b"), Some("2"));
}

#[test]
fn an_extension_is_initialized_once() {
    let mut attrs: SpanStore<SpanExtAttrs> = SpanStore::new();
    SpanExtAttrs::init(&mut attrs, 1);
    assert!(attrs.contains(1));
    assert!(!attrs.contains(2));
    SpanExtAttrs::record_attrs(&mut attrs, 1, &vec![field("a", "1"), field("b", "2")]);
    SpanExtAttrs::init(&mut attrs, 1);
    assert_eq!(attrs.get(1).unwrap().attrs().len(), 2);
    SpanExtAttrs::record_attrs(&mut attrs, 1, &vec![field("a", "3")]);
    assert_eq!(attrs.get(1).unwrap().attrs().get("a"), Some("3"));
    assert_eq!(attrs.get(1).unwrap().attrs().get("b"), Some("2"));
    let taken = attrs.remove(1).unwrap();
    assert_eq!(taken.attrs().len(), 2);
    assert!(attrs.remove(1).is_none());
}

#[test]
fn extensions_of_two_types_do_not_interfere() {
    let mut attrs: SpanStore<SpanExtAttrs> = SpanStore::new();
    let mut timings: SpanStore<SpanExtTiming> = SpanStore::new();
    SpanExtAttrs::init(&mut attrs, 1);
    SpanExtTiming::init(&mut timings, 1);
    let entered = timings.get(1).unwrap().entered;
    SpanExtTiming::init(&mut timings, 1);
    assert_eq!(timings.get(1).unwrap().entered, entered);
    assert!(attrs.remove(1).is_some());
    assert!(timings.contains(1));
    assert!(!attrs.contains(1));
}

#[test]
fn a_field_map_is_a_visitor() {
    let mut map = FieldMap::new();
    map.record_debug("a", "1".to_string());
    map.record_debug("a", "2".to_string());
    assert_eq!(map.len(), 1);
    assert_eq!(map.get("a"), Some("2"));
}

#[test]
fn meta_fields_are_one_fewer_than_the_fields() {
    let payload = vec![field("a", "1"), field("message", "m"), field("b", "2")];
    let visitor = EventVisitor::record_event(&payload);
    assert_eq!(visitor.meta_fields().len(), 2);
    let mut built = EventVisitor::default();
    built.record_debug("a", "1".to_string());
    built.record_debug("message", "m".to_string());
    built.record_debug("a", "2".to_string());
    assert_eq!(built.meta_fields().len(), 1);
    assert_eq!(built.meta_fields().get("a"), Some("2"));
}
