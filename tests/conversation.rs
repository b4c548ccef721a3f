use voice_assistant::coordinator::Status;
use voice_assistant::llm::{ChatMessage, Conversation, Role};

#[test]
fn reply_is_concatenation_of_tokens() {
    let mut c = Conversation::new();
    assert_eq!(c.status(), Status::Idle);
    c.send(ChatMessage("Hi".to_string(), Role::User));
    assert_eq!(c.status(), Status::Busy);
    for t in ["```", "speech", "Hello", " there", "```"] {
        c.receive_token(t);
    }
    let reply = c.finish();
    assert_eq!(reply, "```speechHello there```");
    assert_eq!(c.status(), Status::Idle);
    let m = c.messages();
    assert_eq!(m.len(), 2);
    assert_eq!(m[0].0, "Hi");
    assert_eq!(m[0].1, Role::User);
    assert_eq!(m[1].0, "```speechHello there```");
    assert_eq!(m[1].1, Role::Assistant);
}

#[test]
fn each_turn_starts_a_fresh_reply() {
    let mut c = Conversation::new();
    c.send(ChatMessage("system prompt".to_string(), Role::System));
    c.receive_token("one");
    assert_eq!(c.finish(), "one");
    c.send(ChatMessage("again".to_string(), Role::User));
    c.receive_token("two");
    assert_eq!(c.finish(), "two");
    assert_eq!(c.messages().len(), 4);
}

#[test]
fn abandoned_reply_does_not_join_the_conversation() {
    let mut c = Conversation::new();
    c.send(ChatMessage("Hi".to_string(), Role::User));
    c.receive_token("par");
    c.abandon();
    assert_eq!(c.status(), Status::Idle);
    assert_eq!(c.messages().len(), 1);
    c.send(ChatMessage("again".to_string(), Role::User));
    c.receive_token("full");
    assert_eq!(c.finish(), "full");
}
