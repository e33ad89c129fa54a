//! A versioned entity store with typed, tagged links between entities,
//! identity keys and string anchors.
//!
//! - `node`: node references, their resolution to index keys, and partitions.
//! - `tag`: the structured payload carried in an edge's tag, and its byte format.
//! - `store`: the append-only record and edge store the graph is written to.
//! - `things`: versioned entities: original, latest and all revisions, updates.
//! - `links`: creating relations (one edge, or a pair for bidirectional ones).
//! - `queries`: listing the nodes linked from a node.
//! - `unlink`: deleting relations, with the reverse edge of a bidirectional pair.
//! - `entity`: creating entities with relations, and cascade deletion.
//! - `thing_agents`: agents attached to an entity.
//! - `laws`: properties that relate several operations.

pub mod node;
pub mod tag;
pub mod store;
pub mod things;
pub mod links;
pub mod queries;
pub mod unlink;
pub mod entity;
pub mod thing_agents;
pub mod laws;
