//! A graveyard for files: entries are moved aside instead of unlinked, and a
//! plain-text record remembers where each one came from.
pub mod args;
pub mod naming;
pub mod paths;
pub mod record;
pub mod relocate;
pub mod session;
pub mod text;
pub mod util;

pub use relocate::{copy_file, move_dir, move_target, BIG_FILE_THRESHOLD};
pub use util::get_graveyard;
