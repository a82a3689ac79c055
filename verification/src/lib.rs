//! Validation and planning for whole-car ("carpool") configuration drafts:
//! the input rules a draft must meet before it is saved, the preparation of
//! fresh member credentials, and the decisions of the transactional save.

pub mod text;
pub mod outside;
pub mod model;
pub mod prepare;
pub mod order;
pub mod save;
