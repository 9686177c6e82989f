use vstd::prelude::*;

verus! {

/// Which endpoint of a requested edge was missing from the graph.
#[derive(Clone, Copy, PartialEq, Eq, Structural, Debug)]
pub enum Endpoint {
    FromVertex,
    ToVertex,
}

/// The two failure modes of the library: an edge endpoint that was never
/// added as a vertex, and a traversal root that was never added.
#[derive(Clone, Copy, PartialEq, Eq, Structural, Debug)]
pub enum GraphError {
    UnknownVertex { which: Endpoint },
    UnknownRoot,
}

impl GraphError {
    /// A fixed description of the error, one string per variant.
    pub fn message(&self) -> (r: &'static str)
        ensures
            *self == (GraphError::UnknownVertex { which: Endpoint::FromVertex }) ==> r@
                == "\"from\" vertex doesn't exist in the graph"@,
            *self == (GraphError::UnknownVertex { which: Endpoint::ToVertex }) ==> r@
                == "\"to\" vertex doesn't exist in the graph"@,
            *self == GraphError::UnknownRoot ==> r@ == "Root vertex doesn't exist in the graph"@,
    {
        match self {
            GraphError::UnknownVertex { which: Endpoint::FromVertex } => {
                "\"from\" vertex doesn't exist in the graph"
            },
            GraphError::UnknownVertex { which: Endpoint::ToVertex } => {
                "\"to\" vertex doesn't exist in the graph"
            },
            GraphError::UnknownRoot => "Root vertex doesn't exist in the graph",
        }
    }
}

} // verus!
