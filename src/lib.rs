pub mod config;
pub mod lines;
pub mod matcher;
pub mod path_filter;
pub mod report;
pub mod walk;

pub use config::Config;
pub use matcher::{search, search_case_insensitive};
pub use path_filter::find_hidden_files;
