//! Verified core of a terminal Minecraft launcher: the markdown renderer for
//! project descriptions, form and picker state, the page model and keyboard
//! decisions, what background events do to the UI, click regions, list
//! selection and scrolling, launcher defaults and RGBA rasters for
//! thumbnails.

pub mod text;
pub mod width;
pub mod md;
pub mod forms;
pub mod nav;
pub mod settings;
pub mod ui;
pub mod keys;
pub mod events;
pub mod images;
