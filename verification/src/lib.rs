//! Verified core of a desktop video player: container header probing,
//! media path classification, content fingerprints and the validation
//! rules behind the tag, search and settings commands.

pub mod probe;
pub mod text;
pub mod media;
pub mod hash;
pub mod pending_open;
pub mod startup_config;
pub mod window;
pub mod settings;
pub mod tags;
pub mod search;
pub mod store;
pub mod assoc;
