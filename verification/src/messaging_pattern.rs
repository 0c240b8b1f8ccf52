//! The ways in which the ports of a service exchange data.

use vstd::prelude::*;

verus! {

/// The messaging pattern of a service.
#[derive(Debug, Copy, Clone, Eq, PartialEq, Structural, Hash)]
pub enum MessagingPattern {
    /// A publisher sends data to subscribers.
    PublishSubscribe,
    /// A notifier sends events to listeners, which can wait for them.
    Event,
    /// A client sends requests to a server and receives a stream of
    /// responses.
    RequestResponse,
}

impl MessagingPattern {
    pub open spec fn spec_value(&self) -> u32 {
        match self {
            MessagingPattern::PublishSubscribe => 0,
            MessagingPattern::Event => 1,
            MessagingPattern::RequestResponse => 2,
        }
    }

    /// The number that stands for the pattern where it is stored.
    pub fn value(&self) -> (value: u32)
        ensures
            value == self.spec_value(),
    {
        match self {
            MessagingPattern::PublishSubscribe => 0,
            MessagingPattern::Event => 1,
            MessagingPattern::RequestResponse => 2,
        }
    }
}

} // verus!
