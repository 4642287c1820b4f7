//! Core logic of the StimStation visualiser: sorting animations, pixel
//! rasterisation into RGBA frames, bitmap fonts and small UI state machines.

pub mod color;
pub mod ordering_facts;
pub mod sort_steps;
pub mod sorter;
pub mod algorithm_stats;
pub mod sorter_proofs;
pub mod sorter_limits;
pub mod pixels;

pub mod sorter_drawing;
pub mod pixel_utils;
pub mod line_raster;
pub mod frame_ops;
pub mod drawing;
pub mod rendering;
pub mod buffers;
pub mod config;
pub mod viz;
pub mod video;
pub mod stats_font;
pub mod leaderboard;
pub mod sorter_manager;
pub mod simple_font;
pub mod download;
pub mod word_wrap;
pub mod menu;
pub mod controls;
pub mod box_font;
pub mod quadrants;
pub mod fibonacci;
pub mod world_lines;
pub mod test_pattern;
pub mod audio_download;
pub mod progress;
pub mod laws;
pub mod integration;
