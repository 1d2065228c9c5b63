pub mod attempt;
pub mod cli;
pub mod config;
pub mod outcome;
pub mod pool;
pub mod summary;
pub mod url_list;
