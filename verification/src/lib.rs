//! A file-search library: it filters files by a name pattern and scans file
//! contents for a substring, reporting the matching line and column
//! positions. The pieces fit together as a pipeline: a request (`Config`)
//! drives the filename filter (`find_files_by_name`), the candidates are
//! split into per-worker chunks (`partition`), each worker scans its files
//! line by line (`scan_file`), and the reporter renders each result as a
//! block of output lines (`format_result`).

pub mod arena;
pub mod config;
pub mod digits;
pub mod report;
pub mod scanner;
pub mod text;
pub mod walker;

pub use arena::partition;
pub use config::Config;
pub use config::ConfigError;
pub use report::format_match;
pub use report::format_result;
pub use scanner::LineMatch;
pub use scanner::SearchResult;
pub use scanner::listing_results;
pub use scanner::scan_file;
pub use scanner::scan_lines;
pub use walker::FileEntry;
pub use walker::filename_matches;
pub use walker::find_files_by_name;
