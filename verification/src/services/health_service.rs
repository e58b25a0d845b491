//! The health service.

use vstd::prelude::*;

verus! {

/// The payload of the health endpoint.
#[derive(Debug)]
pub struct HealthResponse {
    pub status: String,
}

/// Reports whether the service is healthy.
#[derive(Clone)]
pub struct HealthService {}

impl HealthService {
    pub fn new() -> (service: HealthService) {
        HealthService {  }
    }

    /// The status of the service: always `healthy`.
    pub fn health_check(&self) -> (response: HealthResponse)
        ensures
            response.status@ == "healthy"@,
    {
        HealthResponse { status: "healthy".to_owned() }
    }
}

} // verus!
