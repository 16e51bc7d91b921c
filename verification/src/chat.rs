//! Role-tagged conversation units.

use vstd::prelude::*;
use vstd::string::*;

verus! {

/// The speaker of one conversation turn.
#[derive(Clone, Copy, Debug, PartialEq, Eq, Structural)]
pub enum Role {
    System,
    User,
    Assistant,
}

/// The conventional wire name of a role, as chat templates expect it.
pub open spec fn spec_role_name(r: Role) -> Seq<char> {
    match r {
        Role::System => "system"@,
        Role::User => "user"@,
        Role::Assistant => "assistant"@,
    }
}

/// One conversation unit.  Immutable once created; ordering within a
/// sequence is meaningful and preserved.
#[derive(Debug)]
pub struct ChatMessage {
    pub role: Role,
    pub content: String,
}

impl ChatMessage {
    pub fn system(content: &str) -> (m: ChatMessage)
        ensures
            m.role == Role::System,
            m.content@ == content@,
    {
        ChatMessage { role: Role::System, content: content.to_owned() }
    }

    pub fn user(content: &str) -> (m: ChatMessage)
        ensures
            m.role == Role::User,
            m.content@ == content@,
    {
        ChatMessage { role: Role::User, content: content.to_owned() }
    }

    pub fn assistant(content: &str) -> (m: ChatMessage)
        ensures
            m.role == Role::Assistant,
            m.content@ == content@,
    {
        ChatMessage { role: Role::Assistant, content: content.to_owned() }
    }

    /// A copy whose fields are equal to this message's fields.
    pub fn duplicate(&self) -> (m: ChatMessage)
        ensures
            m.role == self.role,
            m.content@ == self.content@,
    {
        ChatMessage { role: self.role, content: self.content.clone() }
    }

    /// The wire name of this message's role.
    pub fn role_name(&self) -> (s: &'static str)
        ensures
            s@ == spec_role_name(self.role),
    {
        match self.role {
            Role::System => "system",
            Role::User => "user",
            Role::Assistant => "assistant",
        }
    }

    /// The one-line rendering `[role]: content` used when a message is shown.
    pub fn to_display_string(&self) -> (s: String)
        ensures
            s@ == "["@ + spec_role_name(self.role) + "]: "@ + self.content@,
    {
        let mut s = String::from_str("[");
        s.append(self.role_name());
        s.append("]: ");
        s.append(self.content.as_str());
        s
    }
}

} // verus!
