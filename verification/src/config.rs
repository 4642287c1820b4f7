use vstd::prelude::*;
use crate::buffers::{HEIGHT, WIDTH};

verus! {

/// Settings of the visualisation area.
pub struct VisualizationConfig {
    /// Width of the visualisation area.
    pub width: u32,
    /// Height of the visualisation area.
    pub height: u32,
    /// Whether the audio visualisation runs.
    pub enable_audio: bool,
    /// Whether particle effects run.
    pub enable_particles: bool,
    /// The frame-rate cap, if any.
    pub max_fps: Option<u32>,
}

impl Default for VisualizationConfig {
    /// The full window, with audio and particles on and no frame-rate cap.
    fn default() -> (c: Self)
        ensures
            c.width == WIDTH,
            c.height == HEIGHT,
            c.enable_audio,
            c.enable_particles,
            c.max_fps is None,
    {
        VisualizationConfig {
            width: WIDTH,
            height: HEIGHT,
            enable_audio: true,
            enable_particles: true,
            max_fps: None,
        }
    }
}

} // verus!
