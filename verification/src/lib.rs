//! Verified core logic of the lean-ctx context server.

pub mod text;
pub mod jsonc;
pub mod sanitizer;
pub mod tool_visibility;
pub mod roots;
pub mod config_heal;
pub mod json;
pub mod introspect;
pub mod relevance;
pub mod dashboard;
pub mod ocla;
