use vstd::prelude::*;
use vstd::string::StringExecFns;

verus! {

/// Who wrote a chat turn: the person using the chat, or the model.
#[derive(Clone, Copy, Debug, PartialEq, Eq, Structural)]
pub enum ChatRole {
    Assistant,
    User,
}

/// The lowercase tag under which a role is stored and sent to the model.
pub open spec fn role_tag(r: ChatRole) -> Seq<char> {
    match r {
        ChatRole::Assistant => "assistant"@,
        ChatRole::User => "user"@,
    }
}

impl ChatRole {
    /// The lowercase tag of this role: `"user"` or `"assistant"`.
    pub fn to_string(&self) -> (r: String)
        ensures
            r@ == role_tag(*self),
    {
        match self {
            ChatRole::Assistant => String::from_str("assistant"),
            ChatRole::User => String::from_str("user"),
        }
    }
}

} // verus!
