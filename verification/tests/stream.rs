use unhosted::stream::{event_payloads, handle_payload, Delta, EventBuffer};

#[test]
fn events_are_cut_at_blank_lines_across_chunks() {
    let mut b = EventBuffer::new();
    assert!(b.push_text("data: {\"a\":1}\n").is_empty());
    let ev = b.push_text("\ndata: {\"b\":2}\n\ndata: par");
    assert_eq!(ev, vec!["data: {\"a\":1}\n\n".to_string(), "data: {\"b\":2}\n\n".to_string()]);
    let ev = b.push_text("tial\n\n");
    assert_eq!(ev, vec!["data: partial\n\n".to_string()]);
    assert!(b.push_text("").is_empty());
}

#[test]
fn byte_chunks_are_decoded_one_by_one() {
    let mut b = EventBuffer::new();
    let ev = b.push_bytes(b"data: hi\n\n".to_vec());
    assert_eq!(ev, vec!["data: hi\n\n".to_string()]);
    // A character split across two chunks is not rejoined.
    let mut b = EventBuffer::new();
    assert!(b.push_bytes(vec![b'd', 0xe2, 0x80]).is_empty());
    let ev = b.push_bytes(vec![0x94, b'\n', b'\n']);
    assert_eq!(ev.len(), 1);
    assert!(ev[0].contains('\u{fffd}'));
}

#[test]
fn data_lines_carry_the_payloads() {
    assert_eq!(
        event_payloads("event: x\r\ndata: {\"k\":1}\r\n: comment\ndata: [DONE]\n\n"),
        vec!["{\"k\":1}".to_string(), "[DONE]".to_string()]
    );
    assert!(event_payloads("data:nospace\n\n").is_empty());
}

#[test]
fn payload_steps() {
    assert_eq!(handle_payload("[DONE]", None), (None, false));
    assert_eq!(handle_payload("not json", None), (None, true));
    let d = Delta { content: Some("Hel".into()), finished: false };
    assert_eq!(handle_payload("{..}", Some(d)), (Some("Hel".to_string()), true));
    let d = Delta { content: Some(String::new()), finished: true };
    assert_eq!(handle_payload("{..}", Some(d)), (None, false));
    let d = Delta { content: None, finished: false };
    assert_eq!(handle_payload("{..}", Some(d)), (None, true));
}
