//! Random human-readable labels built from a wordlist, and the metadata
//! records that log them.

pub mod metadata;
pub mod name;
pub mod text;
pub mod wordlist;

pub use metadata::{updated_contents, write_target, MetaData, WriteMode};
pub use name::{generate_name, generate_name_seeded, name_from_indices};
pub use wordlist::{answer_is_no, declines_install, parse_wordlist, WordlistErr};
