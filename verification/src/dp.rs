//! Records of the datapath rings between an application and its head
//! engine.

use vstd::prelude::*;
use crate::interface::MessageTemplateErased;

verus! {

/// A slot of the work queue, written by the application.
#[derive(Clone, Copy, Debug, PartialEq, Eq, Structural, Hash)]
pub enum WorkRequest {
    /// Send a request.
    Call(MessageTemplateErased),
    /// Send a reply.
    Reply(MessageTemplateErased),
}

/// A slot of the completion queue, written by the daemon.
#[derive(Clone, Copy, Debug, PartialEq, Eq, Structural, Hash)]
pub struct Completion {
    pub erased: MessageTemplateErased,
}

impl WorkRequest {
    /// The message that the request carries.
    pub open spec fn erased(self) -> MessageTemplateErased {
        match self {
            WorkRequest::Call(e) => e,
            WorkRequest::Reply(e) => e,
        }
    }

    /// The message that the request carries.
    pub fn message(&self) -> (e: MessageTemplateErased)
        ensures
            e == self.erased(),
    {
        match self {
            WorkRequest::Call(e) => *e,
            WorkRequest::Reply(e) => *e,
        }
    }
}

} // verus!
