pub mod bubblewrap;
pub mod git_push;
pub mod https_service;
pub mod output;
pub mod workspace_write;
