//! What can go wrong while mounting, composing and dispatching.

use vstd::prelude::*;

verus! {

/// The failures of this crate. All but `NotFound` are mistakes in the
/// declared route groups and are meant to stop the process at startup;
/// `NotFound` is the ordinary answer to a request that no route matches.
#[derive(Clone, Copy, Debug, PartialEq, Eq, Structural)]
pub enum RouteError {
    /// The mount prefix is empty or not a path of literal segments.
    InvalidPrefix,
    /// The method and fully qualified path are already mounted.
    Collision,
    /// The document already has an operation at that path and method.
    DuplicatePath,
    /// An operation names a tag that the configured tag set lacks.
    UnknownTag,
    /// No mounted pattern matches the request.
    NotFound,
}

impl RouteError {
    /// Whether the failure must abort startup.
    pub fn is_startup_fatal(&self) -> (fatal: bool)
        ensures
            fatal == !(*self == RouteError::NotFound),
    {
        match self {
            RouteError::NotFound => false,
            _ => true,
        }
    }

    /// A short description for logs and panics.
    pub fn message(&self) -> (text: String)
        ensures
            text@ == match *self {
                RouteError::InvalidPrefix => "invalid mount prefix"@,
                RouteError::Collision => "method and path are already mounted"@,
                RouteError::DuplicatePath => "path and method are already documented"@,
                RouteError::UnknownTag => "operation uses an unknown tag"@,
                RouteError::NotFound => "no route matches"@,
            },
    {
        match self {
            RouteError::InvalidPrefix => "invalid mount prefix".to_owned(),
            RouteError::Collision => "method and path are already mounted".to_owned(),
            RouteError::DuplicatePath => "path and method are already documented".to_owned(),
            RouteError::UnknownTag => "operation uses an unknown tag".to_owned(),
            RouteError::NotFound => "no route matches".to_owned(),
        }
    }
}

} // verus!
