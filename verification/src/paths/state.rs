//! What a session remembers.
use vstd::prelude::*;

use super::publish::{PublicationCache, PublishedFile};
use crate::rpc::message::ToolSchema;
use crate::table::Table;

verus! {

/// The state of one session, shared by both directions of the pipeline.
#[derive(Debug)]
pub struct SessionState {
    /// The files published so far.
    pub publications: PublicationCache,
    /// The input schemas of the server's tools, by tool name.
    pub tool_schemas: Table<ToolSchema>,
}

impl SessionState {
    /// Nothing published and no schema known.
    #[must_use]
    pub fn new() -> (s: SessionState)
        ensures
            s.publications.files() == Map::<(Seq<u8>, u64), PublishedFile>::empty(),
            s.publications.reverse().len() == 0,
            s.tool_schemas@ == Map::<Seq<char>, ToolSchema>::empty(),
    {
        SessionState { publications: PublicationCache::new(), tool_schemas: Table::new() }
    }
}

impl Default for SessionState {
    fn default() -> (s: Self)
        ensures
            s.publications.files() == Map::<(Seq<u8>, u64), PublishedFile>::empty(),
            s.publications.reverse().len() == 0,
            s.tool_schemas@ == Map::<Seq<char>, ToolSchema>::empty(),
    {
        SessionState::new()
    }
}

} // verus!
