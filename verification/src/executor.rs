//! The query executor's decisions: how a database id resolves against the
//! current listing, and how each failure stage of the embedded engine is
//! reported.  The engine calls themselves — opening a handle, connecting,
//! executing — are I/O and live with the host; it hands their outcomes back
//! as plain values.

use vstd::prelude::*;
use vstd::string::StringExecFns;
use crate::registry::DatabaseInfo;

verus! {

/// Why a database id could not be resolved.
#[derive(Clone, Copy, Debug, PartialEq, Eq, Structural)]
pub enum LookupError {
    /// The id is not a position of the current listing.
    NotFound,
}

impl LookupError {
    /// The human-readable message for this failure.
    pub open spec fn spec_message(self) -> Seq<char> {
        "Database not found"@
    }

    /// Renders this failure as its message.
    pub fn message(&self) -> (m: String)
        ensures
            m@ == self.spec_message(),
    {
        String::from_str("Database not found")
    }
}

/// Resolves a database id against a listing: the absolute path of the
/// entry at that position, or not-found when the id is out of range.
pub fn resolve_database_path(all: &Vec<DatabaseInfo>, id: usize) -> (r: Result<
    String,
    LookupError,
>)
    ensures
        match r {
            Ok(p) => id < all@.len() && p@ == all.deep_view()[id as int].path,
            Err(e) => id >= all@.len() && e == LookupError::NotFound,
        },
{
    if id < all.len() {
        Ok(all[id].path.clone())
    } else {
        Err(LookupError::NotFound)
    }
}

/// The stage of one query run at which the embedded engine can fail.
#[derive(Clone, Copy, Debug, PartialEq, Eq, Structural)]
pub enum EngineStage {
    /// Opening the database handle.
    Open,
    /// Opening the connection on the handle.
    Connect,
    /// Executing the overview entity query.
    NodeQuery,
    /// Executing the overview relationship query.
    LinkQuery,
    /// Executing a caller-supplied query.
    Query,
}

impl EngineStage {
    /// The message prefix reported for a failure at this stage.
    pub open spec fn spec_prefix(self) -> Seq<char> {
        match self {
            EngineStage::Open => "Failed to open database: "@,
            EngineStage::Connect => "Failed to create connection: "@,
            EngineStage::NodeQuery => "Node query failed: "@,
            EngineStage::LinkQuery => "Link query failed: "@,
            EngineStage::Query => "Query failed: "@,
        }
    }
}

/// The error reported for an engine failure: the failed stage's prefix,
/// then the engine's own message verbatim.
pub fn engine_error_message(stage: EngineStage, detail: &str) -> (r: String)
    ensures
        r@ == stage.spec_prefix() + detail@,
{
    let mut r = match stage {
        EngineStage::Open => String::from_str("Failed to open database: "),
        EngineStage::Connect => String::from_str("Failed to create connection: "),
        EngineStage::NodeQuery => String::from_str("Node query failed: "),
        EngineStage::LinkQuery => String::from_str("Link query failed: "),
        EngineStage::Query => String::from_str("Query failed: "),
    };
    r.append(detail);
    r
}

} // verus!
