//! The layout and text logic of the xtop widget packs, verified: option
//! parsing, byte and uptime readouts, single-column text, the chart engine's
//! geometry and glyph ramps, and each widget's row budgets, cells and texts
//! (cpu, memory, processes, network, storage, disk I/O, summary, sensors,
//! header) for the base pack and the ASCII `blocks` pack. The terminal
//! drawing and the floating-point samples live in the renderers around it.

use vstd::prelude::*;

pub mod blocks;
pub mod chart;
pub mod core_spec;
pub mod cpu;
pub mod disk_io;
pub mod format;
pub mod glyph;
pub mod memory;
pub mod network;
pub mod options;
pub mod paint;
pub mod processes;
pub mod roles;
pub mod sensors;
pub mod status;
pub mod storage;
pub mod summary;
pub mod text;

verus! {
}
