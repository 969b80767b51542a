use novel_translator::session::{
    join_sections, stateful_request, stateless_request, ChatMessage, Role, Server, SYSTEM_PROMPT,
};

fn strings(parts: &[&str]) -> Vec<String> {
    parts.iter().map(|s| s.to_string()).collect()
}

#[test]
fn join_sections_uses_single_spaces() {
    assert_eq!(join_sections(&strings(&["a", "b", "c"])), "a b c");
    assert_eq!(join_sections(&Vec::new()), "");
}

#[test]
fn stateless_request_one_message_per_section() {
    let msgs = stateless_request(&strings(&["one", "two"]));
    assert_eq!(msgs.len(), 3);
    assert_eq!(msgs[0].role, Role::System);
    assert_eq!(msgs[0].content, SYSTEM_PROMPT);
    assert_eq!(msgs[1].role, Role::User);
    assert_eq!(msgs[1].content, "one");
    assert_eq!(msgs[2].content, "two");
}

#[test]
fn stateful_request_replays_window_and_records_prompt() {
    let mut server = Server::claude();
    for i in 0..12 {
        server.push_history(ChatMessage { role: Role::Assistant, content: format!("m{}", i) });
    }
    let msgs = stateful_request(&mut server, &strings(&["section one", "section two"]));
    // System prompt, the last ten history messages, then the user prompt.
    assert_eq!(msgs.len(), 12);
    assert_eq!(msgs[0].role, Role::System);
    assert_eq!(msgs[1].content, "m2");
    assert_eq!(msgs[10].content, "m11");
    assert_eq!(msgs[11].role, Role::User);
    assert_eq!(msgs[11].content, "section one section two");
}

#[test]
fn clear_history_resets_by_backend() {
    let mut ollama = Server::ollama();
    ollama.push_history(ChatMessage { role: Role::User, content: "hi".to_string() });
    ollama.clear_history();
    match &ollama {
        Server::Ollama { history } => {
            assert_eq!(history.len(), 1);
            assert_eq!(history[0].role, Role::System);
        },
        _ => panic!("connection changed"),
    }

    let mut claude = Server::claude();
    claude.push_history(ChatMessage { role: Role::User, content: "hi".to_string() });
    claude.clear_history();
    match &claude {
        Server::Claude { history } => assert!(history.is_empty()),
        _ => panic!("connection changed"),
    }
}

#[test]
fn connected_reports_connection() {
    assert!(!Server::Disconnected.connected());
    assert!(Server::ollama().connected());
    assert!(Server::claude().connected());
}
