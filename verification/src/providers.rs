//! Providers of models.

use vstd::prelude::*;

use crate::chat::{Chat, Message, Role};

verus! {

/// A provider that always answers the same.
#[derive(Clone, Copy, Debug, PartialEq, Eq, Structural)]
pub struct DummyProvider;

impl DummyProvider {
    pub fn complete(&self, _messages: &Chat) -> (r: Message)
        ensures
            r.role == Role::Assistant,
            r.content@ == "dummy response"@,
    {
        Message::assistant("dummy response")
    }
}

} // verus!
