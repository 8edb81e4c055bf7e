//! Suggests standard names for TV show episode files: it cleans a file's
//! base name down to the show's name, reads the season and episode numbers
//! out of it, and writes the new name.
pub mod cleaning;
pub mod config;
pub mod file_search;
pub mod info;
pub mod matching;
pub mod naming;
pub mod text;

pub use cleaning::{_clean_vost, clean_name, try_clean_name, try_clean_vost};
pub use config::Config;
pub use file_search::SrrFileSet;
pub use info::{get_info, try_get_info};
pub use naming::{confirms_rename, file_name_extension, parse_number_line, suggested_name};
