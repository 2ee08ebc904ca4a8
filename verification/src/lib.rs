use vstd::prelude::*;

pub mod assets;
pub mod catalog_sync;
pub mod charon;
pub mod charon_server;
pub mod classic;
pub mod chars;
pub mod datetime;
pub mod dither;
pub mod enums;
pub mod error;
pub mod geometry;
pub mod import;
pub mod pattern_fill;
pub mod preview;
pub mod project;
pub mod raster;
pub mod session;
pub mod shapes;
pub mod interact;
pub mod job;
pub mod laser;
pub mod materials;
pub mod model;
pub mod state;
pub mod sync_inbox;
pub mod text;
pub mod trace;
pub mod ui_settings;
