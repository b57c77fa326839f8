//! Storage core of an entity-component framework: typed append-only component
//! stores ("layers") linked by a directed relationship graph, plus the entity
//! identity lifecycle (id allocation, reuse, liveness).

pub mod graph;

mod bits;

pub mod space;
