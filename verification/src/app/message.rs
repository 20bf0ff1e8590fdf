//! What sessions and their workers say to each other.
use super::run::{QueryRequest, QueryResponse};
use super::session::SessionId;
use vstd::prelude::*;

verus! {

/// A request to a session's worker; `T` and `G` are what the object tree and the grid ask for.
#[derive(Debug)]
pub enum WorkerRequest<T, G> {
    Tree(T),
    Grid(G),
    Query(QueryRequest),
}

/// The answer of a session's worker.
#[derive(Debug)]
pub enum WorkerResponse<T, G> {
    Tree(T),
    Grid(G),
    Query(QueryResponse),
}

/// An answer, with the session that it belongs to.
#[derive(Debug)]
pub struct SessionResponse<T, G> {
    pub session: SessionId,
    pub response: WorkerResponse<T, G>,
}

} // verus!
