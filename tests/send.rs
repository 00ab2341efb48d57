use llm_chat::forms::NewMessage;
use llm_chat::orchestrator::{begin_send, finish_send, first_choice, CompletionError, SendError};
use llm_chat::resolver::{derive_title, resolve_conversation};
use llm_chat::role::ChatRole;
use llm_chat::store::{ChatTurn, MessageStore, StoreError};

fn send(store: &mut MessageStore, m: NewMessage, reply: &str) -> Vec<ChatTurn> {
    let p = begin_send(store, m.conversation_id, m.message).unwrap();
    finish_send(store, p.conversation.id, Ok(reply.to_string())).unwrap()
}

#[test]
fn example_two_sends() {
    let mut store = MessageStore::new();
    let p = begin_send(&mut store, None, "Hello".to_string()).unwrap();
    let c1 = p.conversation.id;
    assert_eq!(p.prompt.len(), 1);
    assert_eq!(p.prompt[0].role, "user");
    assert_eq!(p.prompt[0].content, "Hello");
    let turns = finish_send(&mut store, c1, Ok("Hi there".to_string())).unwrap();
    assert_eq!(turns.len(), 2);
    assert_eq!(turns[0].role, ChatRole::User);
    assert_eq!(turns[0].content, "Hello");
    assert_eq!(turns[1].role, ChatRole::Assistant);
    assert_eq!(turns[1].content, "Hi there");
    assert_eq!(p.conversation.title, "Hello");
    assert_eq!(store.get_conversation(c1).unwrap().title, "Hello");

    let second = begin_send(&mut store, Some(c1), "How are you?".to_string()).unwrap();
    assert_eq!(second.conversation.id, c1);
    let roles: Vec<&str> = second.prompt.iter().map(|m| m.role.as_str()).collect();
    let contents: Vec<&str> = second.prompt.iter().map(|m| m.content.as_str()).collect();
    assert_eq!(roles, vec!["user", "assistant", "user"]);
    assert_eq!(contents, vec!["Hello", "Hi there", "How are you?"]);
    assert_eq!(second.conversation.title, "Hello");
    finish_send(&mut store, c1, Ok("Fine".to_string())).unwrap();
    assert_eq!(store.get_conversation(c1).unwrap().title, "Hello");
}

#[test]
fn title_stays_first_turn_content() {
    let mut store = MessageStore::new();
    let first = send(&mut store, NewMessage { conversation_id: None, message: "first".to_string() }, "r1");
    let c = first[0].conversation_id;
    for i in 0..3 {
        send(&mut store, NewMessage { conversation_id: Some(c), message: format!("m{}", i) }, "r");
        assert_eq!(store.get_conversation(c).unwrap().title, "first");
    }
}

#[test]
fn no_id_always_creates_a_new_conversation() {
    let mut store = MessageStore::new();
    let a = begin_send(&mut store, None, "x".to_string()).unwrap();
    let b = begin_send(&mut store, None, "x".to_string()).unwrap();
    assert_ne!(a.conversation.id, b.conversation.id);
    assert_eq!(store.list_conversations().len(), 2);
    assert_eq!(b.prompt.len(), 1);
}

#[test]
fn stale_id_starts_a_new_conversation() {
    let mut store = MessageStore::new();
    let p = begin_send(&mut store, Some(42), "hi".to_string()).unwrap();
    assert_ne!(p.conversation.id, 42);
    assert_eq!(p.conversation.id, 1);
    assert_eq!(p.conversation.title, "hi");
    assert_eq!(p.prompt.len(), 1);
    assert!(store.get_conversation(42).is_none());
}

#[test]
fn n_sends_give_alternating_turns() {
    let mut store = MessageStore::new();
    let first = send(&mut store, NewMessage { conversation_id: None, message: "m0".to_string() }, "r0");
    let c = first[0].conversation_id;
    let mut turns = first;
    for i in 1..4 {
        turns = send(&mut store, NewMessage { conversation_id: Some(c), message: format!("m{}", i) }, &format!("r{}", i));
    }
    assert_eq!(turns.len(), 8);
    for (k, t) in turns.iter().enumerate() {
        if k % 2 == 0 {
            assert_eq!(t.role, ChatRole::User);
            assert_eq!(t.content, format!("m{}", k / 2));
        } else {
            assert_eq!(t.role, ChatRole::Assistant);
            assert_eq!(t.content, format!("r{}", k / 2));
        }
    }
    assert_eq!(store.list_turns(c).len(), 8);
}

#[test]
fn failed_completion_keeps_user_turn() {
    let mut store = MessageStore::new();
    let p = begin_send(&mut store, None, "lost?".to_string()).unwrap();
    let c = p.conversation.id;
    let r = finish_send(&mut store, c, Err(CompletionError::Transport));
    assert_eq!(r.unwrap_err(), SendError::Completion(CompletionError::Transport));
    let turns = store.list_turns(c);
    assert_eq!(turns.len(), 1);
    assert_eq!(turns[0].role, ChatRole::User);
    assert_eq!(turns[0].content, "lost?");
    // The unanswered turn is part of the next prompt.
    let second = begin_send(&mut store, Some(c), "again".to_string()).unwrap();
    assert_eq!(second.prompt.len(), 2);
    assert_eq!(second.prompt[0].content, "lost?");
    assert_eq!(second.prompt[1].content, "again");
}

#[test]
fn finish_on_missing_conversation_is_storage_error() {
    let mut store = MessageStore::new();
    let r = finish_send(&mut store, 5, Ok("x".to_string()));
    assert_eq!(r.unwrap_err(), SendError::Storage(StoreError::NotFound));
}

#[test]
fn first_choice_picks_first_or_fails() {
    assert_eq!(first_choice(vec![]).unwrap_err(), CompletionError::MalformedResponse);
    assert_eq!(first_choice(vec!["a".to_string(), "b".to_string()]).unwrap(), "a");
}

#[test]
fn resolve_reuses_existing_and_derives_title() {
    let mut store = MessageStore::new();
    let c = resolve_conversation(&mut store, None).unwrap();
    assert_eq!(c.title, "1");
    store.append_turn(c.id, ChatRole::User, "topic".to_string()).unwrap();
    let again = resolve_conversation(&mut store, Some(c.id)).unwrap();
    assert_eq!(again.id, c.id);
    assert_eq!(again.title, "topic");
    assert_eq!(store.list_conversations().len(), 1);
}

#[test]
fn derive_title_falls_back_to_id() {
    assert_eq!(derive_title(None, 12), "12");
    let t = ChatTurn { id: 1, conversation_id: 12, role: ChatRole::User, content: "Hey".to_string() };
    assert_eq!(derive_title(Some(t), 12), "Hey");
}
