//! Dogtag's document model: notes read against a vault contract.

pub mod chars;
pub mod text;
pub mod diagnostic;
pub mod provenance;
pub mod contract;
pub mod note;
pub mod report;
