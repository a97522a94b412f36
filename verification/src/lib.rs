pub mod backend;
pub mod fmt;
pub mod hash;
pub mod pattern;
pub mod phase;
pub mod plan;
pub mod plan_laws;
pub mod redraw;
pub mod redraw_laws;
pub mod render;
pub mod segment;
pub mod segment_laws;
pub mod state;
pub mod step;
pub mod step_laws;
pub mod term;
pub mod text;
