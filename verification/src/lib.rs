//! Verified core logic of a set of game-engine helpers: the request protocol
//! of a host-backed file system, the merge of module overrides into a base
//! module, the re-indexing of sound references when a sound is removed, and
//! the loading sequence of numbered skin parts.

pub mod filesys;
pub mod module_merge;
pub mod merge_twice;
pub mod syntax;
pub mod sources;
pub mod sound_layers;
pub mod ninja;
pub mod macro_source;

