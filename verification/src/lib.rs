//! Verified core of a Monster Hunter Rise save migrator: the container
//! checksum and link word, payload patching, migrations and edits of the
//! decoded save, field assignments read from listings, and the reads,
//! summaries and content signatures of a decoded save.

pub mod murmur;
pub mod container;
pub mod text;
pub mod payload;
pub mod model;
pub mod schema;
pub mod migrate;
pub mod edit;
pub mod read;
pub mod sys;
pub mod hunter;
pub mod sysmigrate;
pub mod slot;
pub mod records;
pub mod raw;
pub mod strparse;
pub mod assign;
pub mod ieee;
pub mod sig;
pub mod report;
pub mod laws;
pub mod extract;
pub mod arraytext;
pub mod plaintext;
pub mod properties;
