//! A transactional data-access layer for hierarchical spending categories.
//!
//! Categories form a forest per user: each category is owned by one user and
//! optionally points at a parent category of the same user. Within one user's
//! forest the pair of parent and name is unique. The store offers exactly
//! three operations — `create`, `read` and `delete` — and translates
//! storage-level constraint violations into domain errors.

pub mod category;
pub mod exit;
pub mod text;
