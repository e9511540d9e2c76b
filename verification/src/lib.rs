//! Music-folder scanning for a desktop player's backend: recursively
//! enumerate the audio files under a chosen root, and check whether a
//! single path exists.
//!
//! The logic — extension classification against a fixed allow-list,
//! base-name and extension derivation, root-relative folder derivation,
//! and the filtering that builds one record per matched file — is carried
//! out on plain path text and verified. Only the calls that touch the
//! disk (does the root exist, is it a directory, which entries does a
//! link-following walk reach) stand behind trusted wrappers in `disk`.

pub mod classify;
mod disk;
pub mod model;
pub mod paths;
pub mod scan;
pub mod text;

pub use classify::is_audio_file;
pub use model::MusicFile;
pub use scan::{collect_music_files, file_exists, music_file_for, scan_music_folder};
