pub mod config;
pub mod laws;
pub mod matching;
pub mod search;
pub mod text;

pub use config::Config;
pub use config::ConfigError;
pub use config::run_search;
pub use search::search;
pub use search::search_case_insensitive;
