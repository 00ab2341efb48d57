use llm_chat::role::ChatRole;
use llm_chat::store::{ChatTurn, Conversation, MessageStore, StoreError};
use llm_chat::text::decimal_string;

#[test]
fn role_tags_are_lowercase() {
    assert_eq!(ChatRole::User.to_string(), "user");
    assert_eq!(ChatRole::Assistant.to_string(), "assistant");
}

#[test]
fn decimal_rendering() {
    assert_eq!(decimal_string(0), "0");
    assert_eq!(decimal_string(7), "7");
    assert_eq!(decimal_string(10), "10");
    assert_eq!(decimal_string(305), "305");
    assert_eq!(decimal_string(u32::MAX), "4294967295");
}

#[test]
fn new_store_is_empty() {
    let store = MessageStore::new();
    assert!(store.list_conversations().is_empty());
    assert!(store.list_turns(1).is_empty());
    assert!(store.get_conversation(1).is_none());
    assert!(store.get_first_turn(1).is_none());
}

#[test]
fn conversations_get_increasing_ids() {
    let mut store = MessageStore::new();
    let a = store.create_conversation("a".to_string()).unwrap();
    let b = store.create_conversation("b".to_string()).unwrap();
    assert_eq!(a.id, 1);
    assert_eq!(b.id, 2);
    let all = store.list_conversations();
    assert_eq!(all.len(), 2);
    assert_eq!(all[0].title, "a");
    assert_eq!(all[1].title, "b");
    assert_eq!(store.get_conversation(2).unwrap().title, "b");
}

#[test]
fn update_title_of_missing_conversation_is_not_found() {
    let mut store = MessageStore::new();
    assert_eq!(
        store.update_conversation_title(9, "x".to_string()).unwrap_err(),
        StoreError::NotFound
    );
    let c = store.create_conversation(String::new()).unwrap();
    let u = store.update_conversation_title(c.id, "new".to_string()).unwrap();
    assert_eq!(u.title, "new");
    assert_eq!(store.get_conversation(c.id).unwrap().title, "new");
}

#[test]
fn append_to_missing_conversation_is_not_found() {
    let mut store = MessageStore::new();
    let r = store.append_turn(3, ChatRole::User, "hi".to_string());
    assert_eq!(r.unwrap_err(), StoreError::NotFound);
    assert!(store.list_turns(3).is_empty());
}

#[test]
fn turns_are_listed_per_conversation_in_order() {
    let mut store = MessageStore::new();
    let a = store.create_conversation(String::new()).unwrap();
    let b = store.create_conversation(String::new()).unwrap();
    store.append_turn(a.id, ChatRole::User, "a1".to_string()).unwrap();
    store.append_turn(b.id, ChatRole::User, "b1".to_string()).unwrap();
    let t = store.append_turn(a.id, ChatRole::Assistant, "a2".to_string()).unwrap();
    assert_eq!(t.id, 3);
    assert_eq!(t.conversation_id, a.id);
    let ta = store.list_turns(a.id);
    assert_eq!(ta.len(), 2);
    assert_eq!(ta[0].content, "a1");
    assert_eq!(ta[1].content, "a2");
    assert_eq!(ta[1].role, ChatRole::Assistant);
    assert_eq!(store.get_first_turn(b.id).unwrap().content, "b1");
}

#[test]
fn cascade_delete_removes_only_that_conversations_turns() {
    let mut store = MessageStore::new();
    let a = store.create_conversation(String::new()).unwrap();
    let b = store.create_conversation(String::new()).unwrap();
    store.append_turn(a.id, ChatRole::User, "a1".to_string()).unwrap();
    store.append_turn(b.id, ChatRole::User, "b1".to_string()).unwrap();
    store.append_turn(a.id, ChatRole::Assistant, "a2".to_string()).unwrap();
    store.append_turn(b.id, ChatRole::Assistant, "b2".to_string()).unwrap();
    store.delete_conversation(a.id).unwrap();
    assert!(store.get_conversation(a.id).is_none());
    assert!(store.list_turns(a.id).is_empty());
    let tb = store.list_turns(b.id);
    assert_eq!(tb.len(), 2);
    assert_eq!(tb[0].content, "b1");
    assert_eq!(tb[1].content, "b2");
    assert_eq!(store.list_conversations().len(), 1);
    assert_eq!(store.delete_conversation(a.id).unwrap_err(), StoreError::NotFound);
}

fn conv(id: u32, title: &str) -> Conversation {
    Conversation { id, title: title.to_string() }
}

fn turn(id: u32, conversation_id: u32, role: ChatRole, content: &str) -> ChatTurn {
    ChatTurn { id, conversation_id, role, content: content.to_string() }
}

#[test]
fn restore_rebuilds_and_continues_ids() {
    let mut store = MessageStore::restore(
        vec![conv(2, "a"), conv(5, "b")],
        vec![turn(3, 5, ChatRole::User, "x"), turn(7, 2, ChatRole::Assistant, "y")],
    )
    .unwrap();
    assert_eq!(store.list_conversations().len(), 2);
    assert_eq!(store.list_turns(5)[0].content, "x");
    let c = store.create_conversation(String::new()).unwrap();
    assert_eq!(c.id, 6);
    let t = store.append_turn(2, ChatRole::User, "z".to_string()).unwrap();
    assert_eq!(t.id, 8);
}

#[test]
fn restore_rejects_invalid_records() {
    assert!(MessageStore::restore(vec![conv(2, "a"), conv(2, "b")], vec![]).is_none());
    assert!(MessageStore::restore(vec![conv(0, "a")], vec![]).is_none());
    assert!(MessageStore::restore(vec![conv(u32::MAX, "a")], vec![]).is_none());
    assert!(MessageStore::restore(vec![conv(1, "a")], vec![turn(1, 9, ChatRole::User, "x")]).is_none());
    assert!(MessageStore::restore(
        vec![conv(1, "a")],
        vec![turn(4, 1, ChatRole::User, "x"), turn(4, 1, ChatRole::User, "y")]
    )
    .is_none());
    assert!(MessageStore::restore(vec![], vec![]).is_some());
}
