use vstd::prelude::*;

verus! {

/// The closed set of failure kinds a repository reports.
#[derive(Debug, Clone, Copy, PartialEq, Eq, Structural)]
pub enum ErrorKind {
    ValidationFailure,
    NotFound,
    Conflict,
    InternalFailure,
}

/// Every failure a repository operation can end with.
#[derive(Debug, Clone, Copy, PartialEq, Eq, Structural)]
pub enum RepositoryError {
    /// An update payload with every field absent.
    NoChanges,
    ServiceAccountNotFound,
    ServiceAccountNameExists,
    ServiceAccountEmailExists,
    ProjectNotFound,
    ProjectScopeNotFound,
    ScopeCombinationExists,
    /// A store failure that no other variant classifies (a primary key collision).
    Internal,
}

pub open spec fn kind_of(e: RepositoryError) -> ErrorKind {
    match e {
        RepositoryError::NoChanges => ErrorKind::ValidationFailure,
        RepositoryError::ServiceAccountNotFound => ErrorKind::NotFound,
        RepositoryError::ProjectNotFound => ErrorKind::NotFound,
        RepositoryError::ProjectScopeNotFound => ErrorKind::NotFound,
        RepositoryError::ServiceAccountNameExists => ErrorKind::Conflict,
        RepositoryError::ServiceAccountEmailExists => ErrorKind::Conflict,
        RepositoryError::ScopeCombinationExists => ErrorKind::Conflict,
        RepositoryError::Internal => ErrorKind::InternalFailure,
    }
}

pub open spec fn status_of(k: ErrorKind) -> u16 {
    match k {
        ErrorKind::ValidationFailure => 400,
        ErrorKind::NotFound => 404,
        ErrorKind::Conflict => 409,
        ErrorKind::InternalFailure => 500,
    }
}

pub open spec fn message_of(e: RepositoryError) -> Seq<char> {
    match e {
        RepositoryError::NoChanges => "No changes to update"@,
        RepositoryError::ServiceAccountNotFound => "Service account not found"@,
        RepositoryError::ServiceAccountNameExists => "Service account name already exists"@,
        RepositoryError::ServiceAccountEmailExists => "Service account email already exists"@,
        RepositoryError::ProjectNotFound => "Project not found"@,
        RepositoryError::ProjectScopeNotFound => "Project scope not found"@,
        RepositoryError::ScopeCombinationExists => "Project Id, scope combination already exists"@,
        RepositoryError::Internal => "Internal store failure"@,
    }
}

impl ErrorKind {
    /// The transport status that this kind maps to.
    pub fn status(&self) -> (r: u16)
        ensures
            r == status_of(*self),
    {
        match self {
            ErrorKind::ValidationFailure => 400,
            ErrorKind::NotFound => 404,
            ErrorKind::Conflict => 409,
            ErrorKind::InternalFailure => 500,
        }
    }
}

impl RepositoryError {
    pub fn kind(&self) -> (r: ErrorKind)
        ensures
            r == kind_of(*self),
    {
        match self {
            RepositoryError::NoChanges => ErrorKind::ValidationFailure,
            RepositoryError::ServiceAccountNotFound => ErrorKind::NotFound,
            RepositoryError::ProjectNotFound => ErrorKind::NotFound,
            RepositoryError::ProjectScopeNotFound => ErrorKind::NotFound,
            RepositoryError::ServiceAccountNameExists => ErrorKind::Conflict,
            RepositoryError::ServiceAccountEmailExists => ErrorKind::Conflict,
            RepositoryError::ScopeCombinationExists => ErrorKind::Conflict,
            RepositoryError::Internal => ErrorKind::InternalFailure,
        }
    }

    /// The fixed, comparable message of this failure.
    pub fn message(&self) -> (r: String)
        ensures
            r@ == message_of(*self),
    {
        let s: &str = match self {
            RepositoryError::NoChanges => "No changes to update",
            RepositoryError::ServiceAccountNotFound => "Service account not found",
            RepositoryError::ServiceAccountNameExists => "Service account name already exists",
            RepositoryError::ServiceAccountEmailExists => "Service account email already exists",
            RepositoryError::ProjectNotFound => "Project not found",
            RepositoryError::ProjectScopeNotFound => "Project scope not found",
            RepositoryError::ScopeCombinationExists => "Project Id, scope combination already exists",
            RepositoryError::Internal => "Internal store failure",
        };
        String::from_str(s)
    }

    /// Same text as `message`.
    pub fn to_string(&self) -> (r: String)
        ensures
            r@ == message_of(*self),
    {
        self.message()
    }
}

} // verus!
