//! Where the repositories of the namespaces are listed.
pub mod common;
pub mod json_storage;
pub mod storage;
