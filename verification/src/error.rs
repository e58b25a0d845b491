//! The error kinds of the registration phase and of dependency resolution.

use vstd::prelude::*;

verus! {

/// Why a route could not be registered.
#[derive(Clone, Copy, Debug, PartialEq, Eq)]
pub enum RegistrationError {
    /// The template text is malformed, or names one parameter twice.
    InvalidPathTemplate,
    /// The declared parameter at this position maps to no extractor.
    UnsupportedExtractor(usize),
    /// A route with the same method and an equivalent template is present.
    RouteConflict,
}

/// Why a service could not be registered or resolved. Each variant carries
/// the type identity at fault.
#[derive(Clone, Copy, Debug, PartialEq, Eq)]
pub enum ContainerError {
    /// The type identity already has a descriptor.
    DuplicateRegistration(u64),
    /// The type identity has no descriptor.
    UnregisteredDependency(u64),
    /// Resolving the type identity re-entered its own resolution.
    CircularDependency(u64),
}

/// Why a request could not be dispatched.
#[derive(Clone, Copy, Debug, PartialEq, Eq)]
pub enum DispatchError {
    /// No route matches the path, under any method.
    NotFound,
    /// Some route matches the path, but none under the method asked for.
    MethodNotAllowed,
    /// A path parameter does not parse into its type.
    InvalidPathParameter,
    /// A required query parameter is absent.
    MissingQueryParameter,
    /// A query parameter does not parse into its type.
    InvalidQueryParameter,
    /// The body does not decode into its type.
    InvalidBody,
    /// An injected service could not be resolved: a fault of the
    /// configuration, not of the request.
    Dependency(ContainerError),
}

impl DispatchError {
    /// Whether the request is at fault, rather than the configuration.
    pub open spec fn client_caused(self) -> bool {
        !(self is Dependency)
    }

    /// The response status that stands for the error.
    pub open spec fn status_code(self) -> u16 {
        match self {
            DispatchError::NotFound => 404,
            DispatchError::MethodNotAllowed => 405,
            DispatchError::InvalidPathParameter => 400,
            DispatchError::MissingQueryParameter => 400,
            DispatchError::InvalidQueryParameter => 400,
            DispatchError::InvalidBody => 400,
            DispatchError::Dependency(_) => 500,
        }
    }

    /// The response status that stands for the error: of the 400 class for
    /// what the request caused, 500 for a fault of the configuration.
    pub fn status(&self) -> (code: u16)
        ensures
            code == self.status_code(),
            self.client_caused() ==> 400 <= code < 500,
            !self.client_caused() ==> code == 500,
    {
        match self {
            DispatchError::NotFound => 404,
            DispatchError::MethodNotAllowed => 405,
            DispatchError::InvalidPathParameter => 400,
            DispatchError::MissingQueryParameter => 400,
            DispatchError::InvalidQueryParameter => 400,
            DispatchError::InvalidBody => 400,
            DispatchError::Dependency(_) => 500,
        }
    }

    /// The machine-readable name of the error kind.
    pub fn kind(&self) -> (name: &'static str)
        ensures
            name@ == match *self {
                DispatchError::NotFound => "not_found"@,
                DispatchError::MethodNotAllowed => "method_not_allowed"@,
                DispatchError::InvalidPathParameter => "invalid_path_parameter"@,
                DispatchError::MissingQueryParameter => "missing_query_parameter"@,
                DispatchError::InvalidQueryParameter => "invalid_query_parameter"@,
                DispatchError::InvalidBody => "invalid_body"@,
                DispatchError::Dependency(ContainerError::DuplicateRegistration(_)) =>
                    "duplicate_registration"@,
                DispatchError::Dependency(ContainerError::UnregisteredDependency(_)) =>
                    "unregistered_dependency"@,
                DispatchError::Dependency(ContainerError::CircularDependency(_)) =>
                    "circular_dependency"@,
            },
    {
        match self {
            DispatchError::NotFound => "not_found",
            DispatchError::MethodNotAllowed => "method_not_allowed",
            DispatchError::InvalidPathParameter => "invalid_path_parameter",
            DispatchError::MissingQueryParameter => "missing_query_parameter",
            DispatchError::InvalidQueryParameter => "invalid_query_parameter",
            DispatchError::InvalidBody => "invalid_body",
            DispatchError::Dependency(ContainerError::DuplicateRegistration(_)) =>
                "duplicate_registration",
            DispatchError::Dependency(ContainerError::UnregisteredDependency(_)) =>
                "unregistered_dependency",
            DispatchError::Dependency(ContainerError::CircularDependency(_)) =>
                "circular_dependency",
        }
    }
}

} // verus!
