//! The rules of the cutix desktop editor that do not depend on its windowing toolkit:
//! the self-update (versions, release metadata, checksums, archive entries, tar
//! headers, leftover files and the update's phases), the project list's search and
//! order, the properties panel's tabs, the theme's tokens, template and sticker names,
//! text animation presets and windows, sound credits and the reframe sampling plan.
pub mod archive;
pub mod chars;
pub mod checksum;
pub mod leftovers;
pub mod phase;
pub mod projects;
pub mod properties;
pub mod reframe;
pub mod sounds;
pub mod state;
pub mod stickers;
pub mod tar;
pub mod templates;
pub mod text_anim;
pub mod theme;
pub mod update;
pub mod version;
pub mod youtube;
