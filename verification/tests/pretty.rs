//! The layer's callbacks, driven as an event source would drive them.

use tracing_ext::clock::RenderError;
use tracing_ext::fields::Field;
use tracing_ext::layer::{EventData, SpanRef};
use tracing_ext::record::{EventRecord, Level, SpanExtRecord};
use tracing_ext::store::SpanStore;
use tracing_ext::sub::{PrettyConsoleLayer, SpanExtension};
use tracing_ext::tree::{LineGroup, LineKind, Stream};

fn field(name: &str, value: &str) -> Field {
    Field { name: name.to_string(), value: value.to_string() }
}

fn span_ref(id: u64, parent: Option<u64>, name: &str) -> SpanRef {
    SpanRef {
        id,
        parent,
        name: name.to_string(),
        target: "tests".to_string(),
        file: Some("tests/pretty.rs".to_string()),
        line: Some(10),
    }
}

fn event(level: Level, fields: Vec<Field>) -> EventData {
    EventData {
        level,
        target: "tests".to_string(),
        file: Some("tests/pretty.rs".to_string()),
        line: Some(20),
        fields,
    }
}

fn message(level: Level, text: &str) -> EventData {
    event(level, vec![field("message", text)])
}

fn text(group: &LineGroup) -> String {
    String::from_utf8(group.bytes.clone()).unwrap()
}

fn kinds(out: &[LineGroup]) -> Vec<LineKind> {
    out.iter().map(|g| g.kind).collect()
}

fn quiet(layer: PrettyConsoleLayer) -> PrettyConsoleLayer {
    colored::control::set_override(false);
    layer
        .show_time(false)
        .show_target(false)
        .show_file_info(false)
        .show_span_info(false)
        .oneline(true)
}

#[test]
fn test_simple() {
    colored::control::set_override(false);
    let layer = PrettyConsoleLayer::default()
        .wrapped(true)
        .oneline(false)
        .events_only(true)
        .show_time(true)
        .show_target(true)
        .show_span_info(true)
        .indent(6);
    let mut store: SpanStore<SpanExtRecord> = SpanStore::new();

    let out = layer
        .on_event(
            &mut store,
            &event(
                Level::Info,
                vec![field("message", "Test initialized"), field("field1", "\"Field 1\"")],
            ),
            None,
        )
        .unwrap();
    assert_eq!(kinds(&out), vec![LineKind::Event]);
    assert_eq!(out[0].stream, Stream::Stderr);
    let first = text(&out[0]);
    assert!(first.starts_with("INFO  Test initialized\n      time: "));
    assert!(first.ends_with("\n      field1=\"Field 1\""));
    assert!(first.contains("\n      target: tests\n      file: tests/pretty.rs:20\n"));

    layer.on_new_span(
        &mut store,
        &span_ref(1, None, "do_something"),
        &vec![field("a", "1"), field("b", "2")],
    );
    assert!(layer.on_enter(&store, 1).unwrap().is_empty());
    let out = layer
        .on_event(
            &mut store,
            &event(
                Level::Info,
                vec![field("message", "inside do_something()"), field("c", "3")],
            ),
            Some(1),
        )
        .unwrap();
    assert!(out.is_empty());

    layer.on_new_span(
        &mut store,
        &span_ref(2, Some(1), "do_something_nested_1"),
        &vec![field("c", "3")],
    );
    assert!(layer.on_enter(&store, 2).unwrap().is_empty());
    let out = layer
        .on_event(
            &mut store,
            &event(
                Level::Debug,
                vec![
                    field("message", "inside do_something_nested_1()"),
                    field("test_struct", "Struct1 { _field1: \"test_field1\", _field2: 2 }"),
                ],
            ),
            Some(2),
        )
        .unwrap();
    assert!(out.is_empty());

    layer.on_new_span(
        &mut store,
        &span_ref(3, Some(2), "do_something_nested_2"),
        &vec![field("c", "3")],
    );
    assert!(layer.on_enter(&store, 3).unwrap().is_empty());
    let out = layer
        .on_event(
            &mut store,
            &message(Level::Debug, "inside do_something_nested_2()"),
            Some(3),
        )
        .unwrap();
    assert!(out.is_empty());

    assert!(layer.on_exit(&store, 3).is_empty());
    assert!(layer.on_close(&mut store, 3).unwrap().is_empty());
    assert!(layer.on_exit(&store, 2).is_empty());
    assert!(layer.on_close(&mut store, 2).unwrap().is_empty());
    assert!(layer.on_exit(&store, 1).is_empty());
    let out = layer.on_close(&mut store, 1).unwrap();
    assert_eq!(
        kinds(&out),
        vec![LineKind::Event, LineKind::Event, LineKind::Event]
    );
    assert!(out.iter().all(|g| g.stream == Stream::Stdout));
    assert!(text(&out[0]).starts_with("      INFO  inside do_something()\n            time: "));
    assert!(text(&out[0]).contains("\n            span.id: 1\n            span.name: do_something\n"));
    assert!(text(&out[0]).ends_with("\n            c=3"));
    assert!(text(&out[1])
        .starts_with("            DEBUG inside do_something_nested_1()\n                  time: "));
    assert!(text(&out[1]).contains("span.name: do_something_nested_1\n"));
    assert!(text(&out[2]).starts_with(
        "                  DEBUG inside do_something_nested_2()\n                        time: "
    ));
    assert!(!store.contains(1));
    assert!(!store.contains(2));
    assert!(!store.contains(3));

    let out = layer
        .on_event(&mut store, &message(Level::Info, "Test OK"), None)
        .unwrap();
    assert_eq!(out.len(), 1);
    assert!(text(&out[0]).starts_with("INFO  Test OK\n      time: "));
}

#[test]
fn test_tokio() {
    colored::control::set_override(false);
    let layer = PrettyConsoleLayer::default()
        .wrapped(true)
        .oneline(true)
        .events_only(true)
        .show_time(false)
        .show_target(false)
        .show_file_info(false)
        .show_span_info(false)
        .indent(6);
    let mut store: SpanStore<SpanExtRecord> = SpanStore::new();

    let out = layer
        .on_event(
            &mut store,
            &event(
                Level::Info,
                vec![field("message", "Test initialized"), field("field1", "\"Field 1\"")],
            ),
            None,
        )
        .unwrap();
    assert_eq!(text(&out[0]), "INFO  Test initialized field1=\"Field 1\"");

    // Two tasks run side by side: the second is done before the first starts working.
    layer.on_new_span(
        &mut store,
        &span_ref(1, None, "do_task_1"),
        &vec![field("a", "1"), field("b", "2")],
    );
    layer.on_new_span(&mut store, &span_ref(2, None, "do_task_2"), &vec![field("x", "10")]);
    assert!(layer.on_enter(&store, 2).unwrap().is_empty());
    assert!(layer
        .on_event(&mut store, &message(Level::Debug, "inside task 2"), Some(2))
        .unwrap()
        .is_empty());
    assert!(layer.on_enter(&store, 1).unwrap().is_empty());
    assert!(layer.on_exit(&store, 2).is_empty());
    let second = layer.on_close(&mut store, 2).unwrap();
    assert_eq!(second.len(), 1);
    assert_eq!(text(&second[0]), "      DEBUG inside task 2");

    assert!(layer
        .on_event(
            &mut store,
            &event(Level::Info, vec![field("message", "inside task 1"), field("c", "3")]),
            Some(1),
        )
        .unwrap()
        .is_empty());
    layer.on_new_span(&mut store, &span_ref(3, Some(1), "do_task_nested"), &vec![field("x", "3")]);
    assert!(layer.on_enter(&store, 3).unwrap().is_empty());
    assert!(layer
        .on_event(
            &mut store,
            &event(
                Level::Debug,
                vec![
                    field("message", "inside do_task_nested()"),
                    field("test_struct", "Struct1 { _field1: \"test_field1\", _field2: 2 }"),
                ],
            ),
            Some(3),
        )
        .unwrap()
        .is_empty());
    assert!(layer.on_exit(&store, 3).is_empty());
    assert!(layer.on_close(&mut store, 3).unwrap().is_empty());
    assert!(layer.on_exit(&store, 1).is_empty());
    let first = layer.on_close(&mut store, 1).unwrap();
    assert_eq!(first.len(), 2);
    assert_eq!(text(&first[0]), "      INFO  inside task 1 c=3");
    assert_eq!(
        text(&first[1]),
        "            DEBUG inside do_task_nested() test_struct=Struct1 { _field1: \"test_field1\", _field2: 2 }"
    );

    let out = layer
        .on_event(&mut store, &message(Level::Info, "Test OK"), None)
        .unwrap();
    assert_eq!(text(&out[0]), "INFO  Test OK");
}

#[test]
fn a_tree_is_printed_when_its_root_closes() {
    let layer = quiet(PrettyConsoleLayer::default().wrapped(true).events_only(true));
    let mut store: SpanStore<SpanExtRecord> = SpanStore::new();
    layer.on_new_span(&mut store, &span_ref(1, None, "task"), &vec![]);
    assert_eq!(store.get(1).unwrap().tree_level, 0);
    assert!(layer
        .on_event(&mut store, &message(Level::Info, "start"), Some(1))
        .unwrap()
        .is_empty());
    layer.on_new_span(&mut store, &span_ref(2, Some(1), "subtask"), &vec![]);
    assert_eq!(store.get(2).unwrap().tree_level, 1);
    assert!(layer
        .on_event(&mut store, &message(Level::Debug, "inner"), Some(2))
        .unwrap()
        .is_empty());
    assert!(layer.on_close(&mut store, 2).unwrap().is_empty());
    assert!(!store.contains(2));
    {
        let root = store.get(1).unwrap();
        assert_eq!(root.children.len(), 1);
        assert_eq!(root.children[0].name, "subtask");
        assert_eq!(root.children[0].events.len(), 1);
        assert_eq!(root.events.len(), 1);
        assert_eq!(root.events[0].span, Some((1, 1, "task".to_string())));
        assert_eq!(root.children[0].events[0].span, Some((2, 2, "subtask".to_string())));
    }
    let out = layer.on_close(&mut store, 1).unwrap();
    assert!(!store.contains(1));
    let lines: Vec<String> = out.iter().map(text).collect();
    assert_eq!(
        lines,
        vec!["      INFO  start".to_string(), "            DEBUG inner".to_string()]
    );
}

#[test]
fn a_tree_with_span_lines_brackets_its_children() {
    let layer = quiet(PrettyConsoleLayer::default().wrapped(true));
    let mut store: SpanStore<SpanExtRecord> = SpanStore::new();
    layer.on_new_span(&mut store, &span_ref(1, None, "task"), &vec![field("n", "1")]);
    layer
        .on_event(&mut store, &message(Level::Info, "start"), Some(1))
        .unwrap();
    layer.on_new_span(&mut store, &span_ref(2, Some(1), "subtask"), &vec![]);
    layer
        .on_event(&mut store, &message(Level::Debug, "inner"), Some(2))
        .unwrap();
    layer.on_close(&mut store, 2).unwrap();
    let out = layer.on_close(&mut store, 1).unwrap();
    assert_eq!(
        kinds(&out),
        vec![
            LineKind::SpanEntry,
            LineKind::Event,
            LineKind::SpanEntry,
            LineKind::Event,
            LineKind::SpanExit,
            LineKind::SpanExit,
        ]
    );
    let streams: Vec<Stream> = out.iter().map(|g| g.stream).collect();
    assert_eq!(
        streams,
        vec![
            Stream::Stderr,
            Stream::Stdout,
            Stream::Stderr,
            Stream::Stdout,
            Stream::Stderr,
            Stream::Stderr,
        ]
    );
    assert_eq!(text(&out[0]), "{task} n=1");
    assert_eq!(text(&out[1]), "      INFO  start");
    assert_eq!(text(&out[2]), "      {subtask}");
    assert_eq!(text(&out[3]), "            DEBUG inner");
    assert!(text(&out[4]).starts_with("      !{subtask} "));
    assert!(text(&out[4]).ends_with("us"));
    assert!(text(&out[5]).starts_with("!{task} "));
}

#[test]
fn children_are_kept_in_the_order_in_which_they_close() {
    let layer = quiet(PrettyConsoleLayer::default().wrapped(true));
    let mut store: SpanStore<SpanExtRecord> = SpanStore::new();
    layer.on_new_span(&mut store, &span_ref(1, None, "root"), &vec![]);
    layer.on_new_span(&mut store, &span_ref(2, Some(1), "a"), &vec![]);
    layer.on_new_span(&mut store, &span_ref(3, Some(1), "b"), &vec![]);
    layer.on_close(&mut store, 3).unwrap();
    layer.on_close(&mut store, 2).unwrap();
    {
        let root = store.get(1).unwrap();
        let names: Vec<&str> = root.children.iter().map(|c| c.name.as_str()).collect();
        assert_eq!(names, vec!["b", "a"]);
    }
    let out = layer.on_close(&mut store, 1).unwrap();
    let heads: Vec<String> = out
        .iter()
        .filter(|g| g.kind == LineKind::SpanEntry)
        .map(text)
        .collect();
    assert_eq!(
        heads,
        vec!["{root}".to_string(), "      {b}".to_string(), "      {a}".to_string()]
    );
}

#[test]
fn streamed_spans_print_as_many_exits_as_entries() {
    let layer = quiet(PrettyConsoleLayer::default());
    let mut store: SpanStore<SpanExtRecord> = SpanStore::new();
    layer.on_new_span(&mut store, &span_ref(1, None, "outer"), &vec![]);
    layer.on_new_span(&mut store, &span_ref(2, Some(1), "inner"), &vec![]);
    let mut out: Vec<LineGroup> = Vec::new();
    out.extend(layer.on_enter(&store, 1).unwrap());
    out.extend(layer.on_enter(&store, 2).unwrap());
    out.extend(layer.on_exit(&store, 2));
    out.extend(layer.on_enter(&store, 2).unwrap());
    out.extend(
        layer
            .on_event(&mut store, &message(Level::Warn, "careful"), Some(2))
            .unwrap(),
    );
    out.extend(layer.on_exit(&store, 2));
    out.extend(layer.on_close(&mut store, 2).unwrap());
    out.extend(layer.on_exit(&store, 1));
    out.extend(layer.on_close(&mut store, 1).unwrap());
    let entries = out.iter().filter(|g| g.kind == LineKind::SpanEntry).count();
    let exits = out.iter().filter(|g| g.kind == LineKind::SpanExit).count();
    assert_eq!(entries, 3);
    assert_eq!(exits, 3);
    assert!(out.iter().all(|g| g.stream == Stream::Stderr));
    assert_eq!(text(&out[0]), "-->   {outer}");
    assert_eq!(text(&out[1]), "-->   {inner}");
    assert!(text(&out[2]).starts_with("<--   !{inner} "));
    assert_eq!(text(&out[4]), "WARN  careful");
    assert!(!store.contains(1));
    assert!(!store.contains(2));
}

#[test]
fn streamed_spans_are_silent_when_only_events_are_shown() {
    let layer = quiet(PrettyConsoleLayer::default().events_only(true));
    let mut store: SpanStore<SpanExtRecord> = SpanStore::new();
    layer.on_new_span(&mut store, &span_ref(1, None, "outer"), &vec![]);
    assert!(layer.on_enter(&store, 1).unwrap().is_empty());
    let out = layer
        .on_event(&mut store, &message(Level::Error, "broken"), Some(1))
        .unwrap();
    assert_eq!(out.len(), 1);
    assert_eq!(text(&out[0]), "ERROR broken");
    assert!(store.get(1).unwrap().events.is_empty());
    assert!(layer.on_exit(&store, 1).is_empty());
    assert!(layer.on_close(&mut store, 1).unwrap().is_empty());
}

#[test]
fn a_child_is_one_level_below_its_parent() {
    let layer = PrettyConsoleLayer::default().wrapped(true);
    let mut store: SpanStore<SpanExtRecord> = SpanStore::new();
    layer.on_new_span(&mut store, &span_ref(10, None, "l0"), &vec![]);
    layer.on_new_span(&mut store, &span_ref(11, Some(10), "l1"), &vec![]);
    layer.on_new_span(&mut store, &span_ref(12, Some(11), "l2"), &vec![]);
    layer.on_new_span(&mut store, &span_ref(13, Some(10), "l1 too"), &vec![]);
    layer.on_new_span(&mut store, &span_ref(14, None, "another root"), &vec![]);
    assert_eq!(store.get(10).unwrap().tree_level, 0);
    assert_eq!(store.get(11).unwrap().tree_level, 1);
    assert_eq!(store.get(12).unwrap().tree_level, 2);
    assert_eq!(store.get(13).unwrap().tree_level, 1);
    assert_eq!(store.get(14).unwrap().tree_level, 0);
    assert_eq!(store.get(12).unwrap().parent, Some(11));
}

#[test]
fn a_new_span_takes_its_metadata_and_attributes() {
    let layer = PrettyConsoleLayer::default();
    let mut store: SpanStore<SpanExtRecord> = SpanStore::new();
    let seen = SpanRef {
        id: 5,
        parent: None,
        name: "work".to_string(),
        target: "app::jobs".to_string(),
        file: None,
        line: None,
    };
    layer.on_new_span(
        &mut store,
        &seen,
        &vec![field("a", "1"), field("b", "2"), field("a", "3")],
    );
    let record = store.get(5).unwrap();
    assert_eq!(record.id, 5);
    assert_eq!(record.name, "work");
    assert_eq!(record.target, "app::jobs");
    assert_eq!(record.file, "");
    assert_eq!(record.line, 0);
    assert_eq!(record.attrs.len(), 2);
    assert_eq!(record.attrs.get("a"), Some("3"));
    assert_eq!(record.attrs.get("b"), Some("2"));
    assert!(record.events.is_empty());
    assert!(record.children.is_empty());
}

#[test]
fn an_event_record_is_a_snapshot() {
    let seen = EventData {
        level: Level::Warn,
        target: "app".to_string(),
        file: None,
        line: None,
        fields: vec![field("x", "1"), field("message", "hello"), field("y", "2")],
    };
    let record = EventRecord::from_event(&seen, Some((3, 9, "nine".to_string())));
    assert_eq!(record.level, Level::Warn);
    assert_eq!(record.target, "app");
    assert_eq!(record.file, "");
    assert_eq!(record.line, 0);
    assert_eq!(record.message, "hello");
    assert_eq!(record.meta_fields.len(), 2);
    assert!(!record.meta_fields.contains("message"));
    assert_eq!(record.meta_fields.get("x"), Some("1"));
    assert_eq!(record.span, Some((3, 9, "nine".to_string())));
}

#[test]
fn the_store_is_idempotent_on_init() {
    let mut store: SpanStore<u32> = SpanStore::new();
    assert!(!store.contains(1));
    assert_eq!(store.get(1), None);
    store.init(1, 10);
    store.init(1, 20);
    assert_eq!(store.get(1), Some(&10));
    store.init(2, 30);
    store.replace(1, 40);
    assert_eq!(store.get(1), Some(&40));
    assert_eq!(store.remove(1), Some(40));
    assert_eq!(store.remove(1), None);
    assert!(store.contains(2));
    assert!(!store.contains(1));
}

#[test]
fn a_bad_time_format_fails_the_callback() {
    let layer = PrettyConsoleLayer::default().time_format("[").wrapped(false);
    let mut store: SpanStore<SpanExtRecord> = SpanStore::new();
    layer.on_new_span(&mut store, &span_ref(1, None, "s"), &vec![]);
    assert_eq!(layer.on_enter(&store, 1).err(), Some(RenderError::InvalidTimeFormat));
    assert_eq!(
        layer
            .on_event(&mut store, &message(Level::Info, "m"), Some(1))
            .err(),
        Some(RenderError::InvalidTimeFormat)
    );
    assert_eq!(layer.on_exit(&store, 1).len(), 1);
}

#[test]
fn the_root_tree_can_be_printed_from_a_record() {
    let layer = quiet(PrettyConsoleLayer::default().wrapped(true));
    let mut store: SpanStore<SpanExtRecord> = SpanStore::new();
    layer.on_new_span(&mut store, &span_ref(1, None, "root"), &vec![]);
    layer.on_new_span(&mut store, &span_ref(2, Some(1), "leaf"), &vec![]);
    layer.on_close(&mut store, 2).unwrap();
    let record = store.remove(1).unwrap();
    let once = layer.output_root_tree(&record).unwrap();
    let again = layer.output_root_tree(&record).unwrap();
    assert_eq!(kinds(&once), kinds(&again));
    assert_eq!(once.len(), 4);
    assert_eq!(text(&once[0]), text(&again[0]));
    assert_eq!(text(&once[1]), text(&again[1]));
    assert_eq!(text(&once[1]), "      {leaf}");
}

#[test]
fn recording_attributes_leaves_the_rest_of_a_span_record() {
    let layer = PrettyConsoleLayer::default().wrapped(true);
    let mut store: SpanStore<SpanExtRecord> = SpanStore::new();
    layer.on_new_span(&mut store, &span_ref(1, None, "root"), &vec![field("a", "1")]);
    layer.on_new_span(&mut store, &span_ref(2, Some(1), "leaf"), &vec![]);
    layer
        .on_event(&mut store, &message(Level::Info, "kept"), Some(2))
        .unwrap();
    let entered = store.get(2).unwrap().entered;
    SpanExtRecord::record_attrs(&mut store, 2, &vec![field("b", "2"), field("c", "3")]);
    let record = store.get(2).unwrap();
    assert_eq!(record.attrs.len(), 2);
    assert_eq!(record.attrs.get("b"), Some("2"));
    assert_eq!(record.tree_level, 1);
    assert_eq!(record.id, 2);
    assert_eq!(record.parent, Some(1));
    assert_eq!(record.name, "leaf");
    assert_eq!(record.events.len(), 1);
    assert_eq!(record.entered, entered);
    assert_eq!(store.get(1).unwrap().attrs.len(), 1);
}

#[test]
fn a_record_is_made_below_its_parent() {
    let root = SpanExtRecord::new_from_span_ref(&span_ref(1, None, "root"), None);
    assert_eq!(root.tree_level, 0);
    let leaf = SpanExtRecord::new_from_span_ref(&span_ref(2, Some(1), "leaf"), Some(&root));
    assert_eq!(leaf.tree_level, 1);
    assert_eq!(leaf.parent, Some(1));
    let deeper = SpanExtRecord::new_from_span_ref(&span_ref(3, Some(2), "deeper"), Some(&leaf));
    assert_eq!(deeper.tree_level, 2);
    assert_eq!(deeper.attrs.len(), 0);
}

#[test]
fn a_nested_time_format_fails_where_a_line_is_due() {
    let layer = quiet(PrettyConsoleLayer::default().wrapped(true).events_only(true))
        .show_time(true)
        .time_format("[hour[ [b]]");
    let mut store: SpanStore<SpanExtRecord> = SpanStore::new();
    layer.on_new_span(&mut store, &span_ref(1, None, "root"), &vec![]);
    layer.on_new_span(&mut store, &span_ref(2, Some(1), "leaf"), &vec![]);
    assert!(layer.on_enter(&store, 1).unwrap().is_empty());
    assert!(layer.on_close(&mut store, 2).unwrap().is_empty());
    assert_eq!(
        layer
            .on_event(&mut store, &message(Level::Info, "outside"), None)
            .err(),
        Some(RenderError::InvalidTimeFormat)
    );
    // A tree without events prints nothing, so nothing fails.
    assert!(layer.on_close(&mut store, 1).unwrap().is_empty());
    layer.on_new_span(&mut store, &span_ref(3, None, "root"), &vec![]);
    layer.on_new_span(&mut store, &span_ref(4, Some(3), "leaf"), &vec![]);
    assert!(layer
        .on_event(&mut store, &message(Level::Info, "inside"), Some(4))
        .unwrap()
        .is_empty());
    assert!(layer.on_close(&mut store, 4).unwrap().is_empty());
    assert_eq!(
        layer.on_close(&mut store, 3).err(),
        Some(RenderError::InvalidTimeFormat)
    );
    assert!(!store.contains(3));
}
