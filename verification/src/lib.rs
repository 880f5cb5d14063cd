//! A terminal progress-bar library built around a verified core.
//!
//! The heart of the library is the progress state tree: every bar is a
//! node holding a position, an optional length, an optional message and a
//! lifecycle, and a composite bar holds its children together with a
//! weighted, sized or summed combination rule. A pure aggregation pass
//! turns any subtree into completed, running and abandoned shares plus
//! length bounds; the renderer turns that into one line of glyphs; and
//! the manager keeps the visible roots in order, removes the ones whose
//! handles are all gone, and prepares the cursor control that lets bars
//! coexist with ordinary writes to standard output.
//!
//! Everything here is pure state and text: reading the clock, probing the
//! terminal, spawning the redraw thread and writing the escape sequences
//! stay with the embedding program, which passes plain values in (elapsed
//! time, animation phases, whether output is a terminal) and writes the
//! returned text out.

use vstd::prelude::*;

mod aggregate;
mod manager;
mod message;
mod progressbar;
mod render;
mod splitting;
mod state;

pub use aggregate::Aggregate;
pub use manager::ProgressBarManager;
pub use manager::RootEntry;
pub use manager::TickOutput;
pub use manager::should_tick;
pub use progressbar::ProgressBar;
pub use render::BAR_WIDTH;
pub use render::BRIGHTNESS_STEPS;
pub use splitting::ProgressBarSizedNester;
pub use splitting::ProgressBarSummedNester;
pub use splitting::ProgressBarWeightedNester;
pub use state::LifecycleState;
pub use state::NestedBars;
pub use state::NestedMeta;
pub use state::ProgressBarState;
pub use state::SCALE;

verus! {

} // verus!
