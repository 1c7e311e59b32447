//! Memory-management core for agent applications: a cube-scoped knowledge
//! graph of memories with traversal and path search, an entity layer,
//! orchestration steps around an embedder and a vector index, and a job
//! registry for asynchronous adds.

pub mod api;
pub mod audit;
pub mod cube;
pub mod dto;
pub mod entity;
pub mod entity_cube;
pub mod error;
pub mod graph;
pub mod graph_api;
pub mod ids;
pub mod job;
pub mod json;
pub mod laws;
pub mod metadata;
pub mod model;
pub mod outside;
pub mod scheduler;
pub mod select;
pub mod shortest;
pub mod simple;
pub mod store;
pub mod text;
pub mod topk;
pub mod walks;

pub use crate::cube::{MemCube, MemCubeError, NaiveMemCube, VecSearchHit};
pub use crate::dto::{GraphDirection, GraphNeighbor, GraphPath, MemoryEdge, MemoryNode};
pub use crate::entity::{EntityKgError, EntityKgSnapshot, EntityKgStats, EntityKnowledgeGraph};
pub use crate::entity_cube::{EntityAwareMemCube, EntityCubeConfig};
pub use crate::error::GraphStoreError;
pub use crate::scheduler::{InMemoryScheduler, SchedulerError};
pub use crate::store::InMemoryGraphStore;
