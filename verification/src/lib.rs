//! Evidence mining for regretted commits: the parsing, ranking and
//! validation logic behind the `regret` command-line tool.

pub mod text;
pub mod signals;
pub mod policy;
pub mod path_validation;
pub mod patch_id;
pub mod fileset;
pub mod config_file;
pub mod hotspot;
pub mod output;
pub mod cli;
pub mod scan;
pub mod shallow;
pub mod selected_branch;
pub mod time_window;
pub mod doctor;
pub mod records;
pub mod layout;
