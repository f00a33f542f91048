use ai::sse::drain_events;

#[test]
fn complete_lines_yield_payloads_in_order() {
    let b = drain_events("data: {\"a\":1}\n\ndata: {\"b\":2}\n\n");
    assert_eq!(b.payloads, vec!["{\"a\":1}".to_string(), "{\"b\":2}".to_string()]);
    assert!(!b.done);
    assert_eq!(b.rest, "");
}

#[test]
fn unfinished_line_is_kept() {
    let b = drain_events("data: first\ndata: sec");
    assert_eq!(b.payloads, vec!["first".to_string()]);
    assert!(!b.done);
    assert_eq!(b.rest, "data: sec");
    let b = drain_events(&(b.rest + "ond\n"));
    assert_eq!(b.payloads, vec!["second".to_string()]);
    assert_eq!(b.rest, "");
}

#[test]
fn done_event_ends_the_stream() {
    let b = drain_events("data: one\n\ndata: [DONE]\n\ndata: two\n");
    assert_eq!(b.payloads, vec!["one".to_string()]);
    assert!(b.done);
    assert_eq!(b.rest, "\ndata: two\n");
    let b = drain_events("data: [DONE]\n\n");
    assert!(b.payloads.is_empty());
    assert!(b.done);
}

#[test]
fn other_lines_are_ignored_and_empty_payloads_kept() {
    let b = drain_events(": comment\nevent: x\ndata:no-space\ndata: \n\n");
    assert_eq!(b.payloads, vec!["".to_string()]);
    assert!(!b.done);
    let b = drain_events("");
    assert!(b.payloads.is_empty());
    assert_eq!(b.rest, "");
    let b = drain_events("data: [DONE]");
    assert!(b.payloads.is_empty());
    assert!(!b.done);
    assert_eq!(b.rest, "data: [DONE]");
}

#[test]
fn non_ascii_payloads_survive() {
    let b = drain_events("data: héllo wörld\n");
    assert_eq!(b.payloads, vec!["héllo wörld".to_string()]);
}
