use signaling::chat::{build_prompt, ChatManager};

#[test]
fn chat_broadcast_reaches_every_connection_once() {
    let mut c = ChatManager::new();
    c.register(3);
    c.register(7);
    c.register(3);
    let mut r = c.recipients();
    r.sort();
    assert_eq!(r, vec![3, 7]);
    c.unregister(3);
    assert_eq!(c.recipients(), vec![7]);
    c.unregister(42);
    assert_eq!(c.recipients(), vec![7]);
}

#[test]
fn prompt_joins_history_lines() {
    let h = vec!["User: hi".to_string(), "AI: hello".to_string()];
    assert_eq!(
        build_prompt("how are you", &h),
        "Conversation history:\nUser: hi\nAI: hello\nUser: how are you\nAI:"
    );
    assert_eq!(build_prompt("x", &Vec::new()), "Conversation history:\n\nUser: x\nAI:");
}
