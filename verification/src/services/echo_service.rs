//! The echo service: answers with the text it was given and the number of
//! the call. It counts in a plain field: who shares it between requests puts
//! it behind a lock.

use vstd::prelude::*;
use crate::decimal::{decimal, push_decimal};

verus! {

/// The payload of the echo endpoint.
#[derive(Debug)]
pub struct EchoResponse {
    pub data: String,
    pub count: u64,
}

/// Counts its calls and echoes their text.
pub struct EchoService {
    call_count: u64,
}

/// The text of the answer to call number `count` with the text `value`:
/// the number in decimal, a colon, a space, the text.
pub open spec fn echo_text(count: u64, value: Seq<char>) -> Seq<char> {
    decimal(count as nat) + ": "@ + value
}

/// The answer to call number `count` with the text `value`.
pub fn echo_response(count: u64, value: &str) -> (response: EchoResponse)
    ensures
        response.count == count,
        response.data@ == echo_text(count, value@),
{
    let mut data = String::new();
    push_decimal(&mut data, count);
    data.append(": ");
    data.append(value);
    assert(data@ =~= echo_text(count, value@));
    EchoResponse { data, count }
}

impl EchoService {
    /// A service that has answered no call.
    pub fn new() -> (service: EchoService)
        ensures
            service.calls() == 0,
    {
        EchoService { call_count: 0 }
    }

    /// The number of calls answered so far.
    pub closed spec fn calls(&self) -> u64 {
        self.call_count
    }

    /// The number of calls answered so far.
    pub fn call_count(&self) -> (calls: u64)
        ensures
            calls == self.calls(),
    {
        self.call_count
    }

    /// Counts the call and answers it with its number and the text.
    pub fn echo(&mut self, value: &str) -> (response: EchoResponse)
        ensures
            final(self).calls() == next_count(old(self).calls()),
            response.count == final(self).calls(),
            response.data@ == echo_text(response.count, value@),
    {
        self.call_count = self.call_count.wrapping_add(1);
        echo_response(self.call_count, value)
    }
}

/// The number of the call after `calls` calls: one more, and 0 after the
/// largest 64-bit number.
pub open spec fn next_count(calls: u64) -> u64 {
    if calls == u64::MAX {
        0
    } else {
        (calls + 1) as u64
    }
}

} // verus!
