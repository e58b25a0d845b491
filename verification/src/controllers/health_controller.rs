//! The health controller.

use std::sync::Arc;
use vstd::prelude::*;
use crate::services::health_service::{HealthResponse, HealthService};

verus! {

/// Serves the health endpoint.
#[derive(Clone)]
pub struct HealthController {
    health_service: Arc<HealthService>,
}

impl HealthController {
    pub fn new() -> (controller: HealthController) {
        HealthController { health_service: Arc::new(HealthService::new()) }
    }

    /// Answers the health endpoint: status 200 and what the health service
    /// reports.
    pub fn health_check(&self) -> (answer: (u16, HealthResponse))
        ensures
            answer.0 == 200,
            answer.1.status@ == "healthy"@,
    {
        let response = self.health_service.health_check();
        (200, response)
    }
}

impl Default for HealthController {
    fn default() -> (controller: HealthController) {
        HealthController::new()
    }
}

} // verus!
