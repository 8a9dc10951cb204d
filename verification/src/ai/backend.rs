//! Messages exchanged with a language model.

use vstd::prelude::*;

verus! {

/// Who speaks a message of a model conversation.
#[derive(Clone, Copy, Debug, PartialEq, Eq, Structural)]
pub enum Role {
    System,
    User,
    Assistant,
}

/// A message in a model conversation.
pub struct ChatMessage {
    pub role: Role,
    pub content: String,
}

impl View for ChatMessage {
    type V = (Role, Seq<char>);

    open spec fn view(&self) -> (Role, Seq<char>) {
        (self.role, self.content@)
    }
}

/// The messages of a model conversation as role and text.
pub open spec fn chat_view(v: Seq<ChatMessage>) -> Seq<(Role, Seq<char>)> {
    v.map_values(|m: ChatMessage| m@)
}

/// A model's answer.
pub struct ChatResponse {
    pub content: String,
    pub tokens_used: Option<u64>,
}

/// The lowercase name a role has on the wire.
pub open spec fn role_name_spec(r: Role) -> Seq<char> {
    match r {
        Role::System => "system"@,
        Role::User => "user"@,
        Role::Assistant => "assistant"@,
    }
}

/// The lowercase name a role has on the wire.
pub fn role_name(r: Role) -> (res: &'static str)
    ensures
        res@ == role_name_spec(r),
{
    match r {
        Role::System => "system",
        Role::User => "user",
        Role::Assistant => "assistant",
    }
}

} // verus!
