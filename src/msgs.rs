//! The work items that the pool's workers carry out.

use sea_orm::DatabaseConnection;
use vstd::prelude::*;

verus! {

#[verifier::external_type_specification]
#[verifier::external_body]
pub struct ExDatabaseConnection(DatabaseConnection);

/// A handle on the database, for the items that only need one.
#[derive(Debug)]
pub struct DbInput {
    pub conn: DatabaseConnection,
}

/// One view of a short link, to be recorded.
#[derive(Debug)]
pub struct ViewInput {
    /// The short code that was visited.
    pub id: String,
    /// Whether the redirect was served from the cache.
    pub cached: bool,
    /// The address the request came from, if known.
    pub ip: Option<String>,
    /// The request's headers, as name and value.
    pub headers: Option<Vec<(String, String)>>,
    pub conn: DatabaseConnection,
}

/// A unit of background maintenance work.
#[derive(Debug)]
pub enum ActorInputMessage {
    /// Does nothing; a round trip through the pool.
    Noop,
    /// Deletes the sessions whose expiry has passed.
    CleanSessions(DbInput),
    /// Deletes the short links whose expiry has passed.
    CleanUrls(DbInput),
    /// Records a view of a short link.
    UpdateViews(ViewInput),
}

/// The outcome of a work item that succeeded.
#[derive(Debug, Clone, PartialEq, Eq)]
pub struct ActorOutputMessage {
    pub msg: String,
}

} // verus!
