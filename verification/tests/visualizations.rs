use stimstation::buffers::{HEIGHT, WIDTH};
use stimstation::config::VisualizationConfig;
use stimstation::drawing::FrameBuffer;
use stimstation::viz::{PythagorasViz, VisualizationBase};

struct TestViz {
    base: VisualizationBase,
}

impl TestViz {
    fn new() -> Self {
        Self {
            base: VisualizationBase::new(100, 100, "TestViz"),
        }
    }

    fn render(&mut self, _time: f32) -> FrameBuffer {
        self.base.create_frame_buffer()
    }

    fn name(&self) -> &'static str {
        self.base.name
    }
}

#[test]
fn test_pythagoras_creation() {
    let viz = PythagorasViz::new(800, 600);
    assert_eq!(viz.name(), "Pythagoras Theorem");
}

#[test]
fn test_visualization_trait() {
    let mut viz = TestViz::new();
    assert_eq!(viz.name(), "TestViz");
    let fb = viz.render(0.0);
    assert_eq!(fb.width(), 100);
    assert_eq!(fb.height(), 100);
}

#[test]
fn visualization_config_defaults_to_the_window() {
    let config = VisualizationConfig::default();
    assert_eq!(config.width, WIDTH);
    assert_eq!(config.height, HEIGHT);
    assert!(config.enable_audio);
    assert!(config.enable_particles);
    assert_eq!(config.max_fps, None);
}

#[test]
fn pythagoras_keeps_its_size() {
    let viz = PythagorasViz::new(320, 200);
    assert_eq!(viz.base().width, 320);
    assert_eq!(viz.base().height, 200);
}
