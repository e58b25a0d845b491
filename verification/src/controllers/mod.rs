//! The controllers of the example application: what each endpoint answers,
//! as a status and a payload.

pub mod echo_controller;
pub mod health_controller;
