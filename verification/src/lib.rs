//! A minimal persistent task-tracking store.
//!
//! A [`record_store::RecordStore`] maps a composite key — the pair of an
//! owner identity and a task name — to a [`task::Task`] record, and an
//! [`owner_index::OwnerIndex`] maps each owner identity to the ordered
//! list of task names it has created.  A [`service::Contract`] composes
//! the two, keeps them consistent, and answers owner-scoped queries.
//!
//! The caller identity is an opaque string supplied by the surrounding
//! execution environment; every operation takes it as an explicit
//! argument.

pub mod owner_index;
pub mod record_store;
pub mod service;
pub mod state;
pub mod task;
