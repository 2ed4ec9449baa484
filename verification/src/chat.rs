//! Conversations with a model, and how calls of a model fail.

use vstd::prelude::*;

use crate::json::Json;
use crate::trace::LmUsage;

verus! {

/// Who says something.
#[derive(Clone, Copy, Debug, PartialEq, Eq, Structural)]
pub enum Role {
    System,
    User,
    Assistant,
    Tool,
}

/// Something that is said.
#[derive(Debug)]
pub struct Message {
    pub role: Role,
    pub content: String,
}

impl Message {
    pub fn system(content: &str) -> (r: Self)
        ensures
            r.role == Role::System,
            r.content@ == content@,
    {
        Message { role: Role::System, content: content.to_owned() }
    }

    pub fn user(content: &str) -> (r: Self)
        ensures
            r.role == Role::User,
            r.content@ == content@,
    {
        Message { role: Role::User, content: content.to_owned() }
    }

    pub fn assistant(content: &str) -> (r: Self)
        ensures
            r.role == Role::Assistant,
            r.content@ == content@,
    {
        Message { role: Role::Assistant, content: content.to_owned() }
    }
}

impl Clone for Message {
    fn clone(&self) -> (r: Self)
        ensures
            r == *self,
    {
        Message { role: self.role, content: self.content.clone() }
    }
}

/// A conversation.
#[derive(Debug)]
pub struct Chat {
    pub messages: Vec<Message>,
}

impl Chat {
    pub fn new(messages: Vec<Message>) -> (r: Self)
        ensures
            r.messages == messages,
    {
        Chat { messages }
    }

    pub fn push_message(&mut self, message: Message)
        ensures
            final(self).messages@ == old(self).messages@.push(message),
    {
        self.messages.push(message);
    }
}

impl Clone for Chat {
    fn clone(&self) -> (r: Self)
        ensures
            r.messages@ == self.messages@,
    {
        let mut messages: Vec<Message> = Vec::new();
        let mut i: usize = 0;
        while i < self.messages.len()
            invariant
                i <= self.messages@.len(),
                messages@ == self.messages@.take(i as int),
            decreases self.messages@.len() - i,
        {
            messages.push(self.messages[i].clone());
            i += 1;
            proof {
                assert(messages@ =~= self.messages@.take(i as int));
            }
        }
        proof {
            assert(messages@ =~= self.messages@);
        }
        Chat { messages }
    }
}

/// Why a reply could not be read.
#[derive(Debug)]
pub enum ParseError {
    MissingField { field: String, raw_response: String },
    ExtractionFailed { field: String, raw_response: String, reason: String },
    CoercionFailed { field: String, expected_type: String, raw_text: String, reason: String },
    AssertFailed { field: String, label: String, expression: String, value: Json },
    Multiple { errors: Vec<ParseError>, partial: Option<Json> },
}

/// How a model could not be called.
#[derive(Debug)]
pub enum LmError {
    Provider { provider: String, message: String },
}

/// How a prediction fails.
#[allow(inconsistent_fields)]
#[derive(Debug)]
pub enum PredictError {
    Lm { source: LmError },
    Parse { source: ParseError, raw_response: String, lm_usage: LmUsage, chat: Chat },
    Replay { message: String },
    Module { module: String, message: String },
}

} // verus!
