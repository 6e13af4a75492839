pub mod dates;
pub mod decimal;
pub mod file_mgmt;
pub mod graph;
pub mod parser;
pub mod pattern;
pub mod sanitizer;
pub mod text;
pub mod web_server;
pub mod laws;
