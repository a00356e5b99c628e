//! The tool registry's search parameters.
use vstd::prelude::*;

verus! {

/// A search among the registered tools (by call name, title or
/// description).
pub struct ToolSearchArgs {
    pub query: String,
    /// Most results to return (10 by default).
    pub limit: Option<u32>,
}

/// The number of results a tool search returns at most.
pub fn tool_search_limit(args: &ToolSearchArgs) -> (r: u32)
    ensures
        r == (match args.limit { Some(l) => l, None => 10 }),
{
    match args.limit {
        Some(l) => l,
        None => 10,
    }
}

} // verus!
