pub mod bfs;
pub mod errors;
pub mod graph;

pub use bfs::BfsEvent;
pub use bfs::BfsFunc;
pub use bfs::BfsHooks;
pub use errors::Endpoint;
pub use errors::GraphError;
pub use graph::Graph;
