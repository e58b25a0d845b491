//! A declarative web-service core: a dependency container, a route table with
//! conflict detection, and a dispatcher that selects a route and runs its
//! extraction plan. Transport, serialization and handlers live outside; the
//! library decides, the caller performs.

pub mod application;
pub mod container;
pub mod container_laws;
pub mod controllers;
pub mod decimal;
pub mod dispatch;
pub mod dispatch_laws;
pub mod error;
pub mod route;
pub mod server;
pub mod services;
pub mod specificity;
pub mod table;
pub mod template;
pub mod text;
