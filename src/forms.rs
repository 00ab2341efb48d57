use vstd::prelude::*;

verus! {

/// A message submitted to a conversation: `conversation_id` is absent to
/// start a new one.
#[derive(Clone, Debug)]
pub struct NewMessage {
    pub conversation_id: Option<u32>,
    pub message: String,
}

/// A message submitted to the chat with identifier `chat_id`.
#[derive(Clone, Debug)]
pub struct Message {
    pub chat_id: u32,
    pub message: String,
}

/// The profile shown and edited on the settings page.
#[derive(Clone, Debug)]
pub struct User {
    pub first_name: String,
    pub last_name: String,
    pub email: String,
}

/// The settings page's query: whether the profile is shown for editing.
#[derive(Clone, Copy, Debug)]
pub struct GetSettingQuery {
    pub editing: Option<bool>,
}

/// The greeting page's view model.
#[derive(Clone, Debug)]
pub struct HelloTemplate {
    pub name: String,
}

} // verus!
