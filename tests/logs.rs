use rhfs_core::logs::{Level, LogCollector, LogField, SpanData, SpanStack, WriteBehaviour};

#[test]
fn non_async_context() {
    let mut logs = LogCollector::new();
    let stack = SpanStack::new();
    logs.record(&stack, 0, Level::Debug, "tests", "debug log", vec![LogField::new("b", "11"), LogField::new("b", "123")]);
    let entries = logs
        .get_all()
        .into_iter()
        .map(|v| (v.level(), v.message().to_owned(), v.fields().iter().map(|f| f.duplicate()).collect::<Vec<_>>()))
        .collect::<Vec<_>>();
    let expected = Vec::from([(
        Level::Debug,
        "debug log".to_owned(),
        Vec::from([LogField::new("b", "11"), LogField::new("b", "123")]),
    )]);
    assert_eq!(entries.as_slice(), expected.as_slice());
}

#[test]
fn async_context() {
    let mut logs = LogCollector::new();
    let stack = SpanStack::new();
    logs.record(&stack, 1, Level::Info, "tests", "1", Vec::new());
    logs.record(&stack, 2, Level::Info, "tests", "2", Vec::new());
    let entries = logs
        .get_all()
        .into_iter()
        .map(|v| (v.level(), v.message().to_owned(), v.fields().len()))
        .collect::<Vec<_>>();
    assert_eq!(entries, vec![(Level::Info, "1".to_owned(), 0), (Level::Info, "2".to_owned(), 0)]);
}

#[test]
fn events_snapshot_the_span_stack_root_first() {
    let mut logs = LogCollector::new();
    let mut stack = SpanStack::new();
    stack.enter(SpanData::new("outer", vec![LogField::new("a", "1")]));
    stack.enter(SpanData::new("inner", vec![LogField::new("b", "2"), LogField::new("b", "3")]));
    logs.record(&stack, 5, Level::Warn, "t", "inside", vec![LogField::new("k", "v")]);
    stack.exit();
    logs.record(&stack, 6, Level::Error, "t", "after", Vec::new());
    stack.exit();
    assert!(stack.exit().is_none());
    logs.record(&stack, 7, Level::Trace, "t", "outside", Vec::new());

    let inside = logs.find_message("inside").unwrap();
    assert_eq!(inside.spans().len(), 2);
    assert_eq!(inside.spans()[0].name(), "outer");
    assert_eq!(inside.spans()[1].name(), "inner");
    assert_eq!(inside.span_field("inner", "b").unwrap().value(), "2");
    assert_eq!(inside.span_field("outer", "a").unwrap().value(), "1");
    assert!(inside.span_field("outer", "b").is_none());
    assert!(inside.span_field("missing", "a").is_none());
    assert_eq!(inside.field("k").unwrap().value(), "v");
    assert!(inside.field("x").is_none());
    assert_eq!(inside.target(), "t");
    assert_eq!(logs.find_message("after").unwrap().spans().len(), 1);
    assert_eq!(logs.find_message("outside").unwrap().spans().len(), 0);
    assert!(logs.find_message("nothing").is_none());
    assert_eq!(logs.len(), 3);
    assert_eq!(logs.entry(2).message(), "outside");
}

#[test]
fn find_gives_the_first_match_and_clear_forgets() {
    let mut logs = LogCollector::new();
    let stack = SpanStack::new();
    logs.record(&stack, 1, Level::Info, "t", "same", vec![LogField::new("n", "first")]);
    logs.record(&stack, 2, Level::Info, "t", "same", vec![LogField::new("n", "second")]);
    assert_eq!(logs.find_message("same").unwrap().field("n").unwrap().value(), "first");
    logs.write_always();
    logs.clear();
    assert_eq!(logs.len(), 0);
    assert_eq!(logs.write_behaviour(), WriteBehaviour::Always);
    assert_eq!(logs.take().len(), 0);
}

#[test]
fn write_behaviour_decides_on_output() {
    assert!(WriteBehaviour::Always.should_write(false));
    assert!(!WriteBehaviour::Never.should_write(true));
    assert!(WriteBehaviour::OnError.should_write(true));
    assert!(!WriteBehaviour::OnError.should_write(false));
    let mut logs = LogCollector::new();
    assert_eq!(logs.write_behaviour(), WriteBehaviour::OnError);
    logs.write_never();
    assert_eq!(logs.write_behaviour(), WriteBehaviour::Never);
    logs.write_on_error();
    assert_eq!(logs.write_behaviour(), WriteBehaviour::OnError);
}

#[test]
fn find_asks_a_predicate_in_emission_order() {
    let mut logs = LogCollector::new();
    let stack = SpanStack::new();
    logs.record(&stack, 1, Level::Info, "t", "a", vec![LogField::new("n", "1")]);
    logs.record(&stack, 2, Level::Warn, "t", "b", vec![LogField::new("n", "2")]);
    logs.record(&stack, 3, Level::Warn, "t", "c", Vec::new());
    let found = logs.find(|e| e.level() == Level::Warn).unwrap();
    assert_eq!(found.message(), "b");
    assert_eq!(found.timestamp(), 2);
    assert!(logs.find(|e| e.message() == "z").is_none());
    let with_field = logs.find(|e| e.field("n").map(|f| f.value() == "1").unwrap_or(false)).unwrap();
    assert_eq!(with_field.message(), "a");
}
