//! The application state: the run's settings and the frame currently shown.
use crate::engine::{
    Bucket, PAD, SimulationConfig, drawn_frame, frame_view, generate, labels,
};
use rand::rngs::StdRng;
use vstd::prelude::*;

verus! {

/// Walks per frame when nothing else is chosen.
pub const DEFAULT_SAMPLE_COUNT: usize = 5000;

/// Steps per walk when nothing else is chosen; odd, so endpoints land on odd labels.
pub const DEFAULT_WALK_LENGTH: u32 = 19;

/// The settings of the run and the frame that is drawn.
pub struct App {
    pub config: SimulationConfig,
    pub data: Vec<Bucket>,
}

impl App {
    /// The default settings, with no frame generated yet.
    pub fn new() -> (r: App)
        ensures
            r.config.sample_count == DEFAULT_SAMPLE_COUNT,
            r.config.walk_length == DEFAULT_WALK_LENGTH,
            r.data@.len() == 0,
    {
        App {
            config: SimulationConfig {
                sample_count: DEFAULT_SAMPLE_COUNT,
                walk_length: DEFAULT_WALK_LENGTH,
            },
            data: Vec::new(),
        }
    }

    /// Replaces the frame with a freshly generated one; the settings stay.
    pub fn on_tick(&mut self, rng: &mut StdRng)
        requires
            old(self).config.walk_length + PAD + 1 <= usize::MAX,
        ensures
            final(self).config == old(self).config,
            drawn_frame(old(self).config, frame_view(final(self).data@)),
            frame_view(final(self).data@).map_values(|p: (int, nat)| p.0) == labels(
                old(self).config.walk_length as nat,
            ),
    {
        let frame = generate(&self.config, rng);
        self.data = frame;
    }
}

} // verus!
