//! The echo controller: what the echo endpoint answers, as a status and a
//! payload.

use vstd::prelude::*;
use crate::services::echo_service::{echo_text, next_count, EchoResponse, EchoService};

verus! {

/// Serves the echo endpoint, and owns the service that counts its calls.
pub struct EchoController {
    echo_service: EchoService,
}

/// The body of a request to the echo endpoint.
#[derive(Debug)]
pub struct EchoRequest {
    message: String,
}

impl EchoRequest {
    pub fn new(message: String) -> (request: EchoRequest)
        ensures
            request.message_view() == message@,
    {
        EchoRequest { message }
    }

    /// The text to echo.
    pub closed spec fn message_view(&self) -> Seq<char> {
        self.message@
    }

    /// The text to echo.
    pub fn message(&self) -> (text: &str)
        ensures
            text@ == self.message_view(),
    {
        self.message.as_str()
    }
}

impl EchoController {
    /// A controller whose service has answered no call.
    pub fn new() -> (controller: EchoController)
        ensures
            controller.calls() == 0,
    {
        EchoController { echo_service: EchoService::new() }
    }

    /// The number of calls the service has answered so far.
    pub closed spec fn calls(&self) -> u64 {
        self.echo_service.calls()
    }

    /// The number of calls the service has answered so far.
    pub fn call_count(&self) -> (calls: u64)
        ensures
            calls == self.calls(),
    {
        self.echo_service.call_count()
    }

    /// Answers the echo endpoint: status 200 and what the echo service makes
    /// of the message, which it counts.
    pub fn echo(&mut self, payload: &EchoRequest) -> (answer: (u16, EchoResponse))
        ensures
            answer.0 == 200,
            final(self).calls() == next_count(old(self).calls()),
            answer.1.count == final(self).calls(),
            answer.1.data@ == echo_text(answer.1.count, payload.message_view()),
    {
        let response = self.echo_service.echo(payload.message());
        (200, response)
    }
}

} // verus!
