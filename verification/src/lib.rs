//! The decisions of a consumer-group store kept in ScyllaDB.

pub mod assignment;
pub mod assignment_laws;
pub mod consumer_id;
pub mod creation;
pub mod error;
pub mod lowest_slot;
pub mod offset_laws;
pub mod offset_writes;
pub mod slot_laws;
pub mod statement;
pub mod store;
pub mod table_laws;
pub mod tables;
pub mod types;

pub use assignment::ShardAssignments;
pub use consumer_id::ConsumerId;
pub use error::StoreError;
