pub mod blog;
pub mod config;
pub mod date;
pub mod git;
pub mod post;
pub mod text;
pub mod update;
pub mod wiki;
