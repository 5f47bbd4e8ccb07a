//! Repository validation rules for an organization-defaults repository:
//! required files, text hygiene, Markdown links, file inventories, contract
//! tokens, pinned workflow files and workflow-template metadata.

pub mod chars;
pub mod order;
pub mod markdown;
pub mod repo;
pub mod workflow;
pub mod scan;
pub mod json;
pub mod files;
pub mod lists;
pub mod validate;
pub mod run;
pub mod walk;
pub mod listing;
pub mod laws;

pub use crate::run::run_validation;
pub use crate::validate::{validate_repository, ValidationErrors};
