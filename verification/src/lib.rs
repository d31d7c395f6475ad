pub mod chars;
pub mod remote;
pub mod text;
pub mod errors;
pub mod browser;
pub mod config;
pub mod context;
pub mod pods;
pub mod storage;
pub mod drawer;
