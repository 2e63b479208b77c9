//! The frame pipeline of an ASCII animation viewer: which files of a directory
//! are frames and in what order they play, the binary containers that hold a
//! frame's glyphs and colours, the loader that publishes text first and colours
//! as they come, the rasterizer that batches coloured glyphs, the cache that
//! keeps rasters for one font size, and the scheduler that moves playback on.

pub mod audio;
pub mod cache;
pub mod codec;
pub mod details;
pub mod display;
pub mod enumerate;
pub mod frame;
pub mod grid;
pub mod loader;
pub mod playback;
pub mod raster;
pub mod reading;
pub mod text;

pub use codec::{CFrameData, ColorData};
pub use details::ProjectDetails;
pub use enumerate::{extract_frame_index, FrameFile};
