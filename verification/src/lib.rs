//! Server-side world logic: ticket-driven chunk loading levels, the chunk
//! offset tables they spread over, the rules of sculk-patch generation, and
//! detector rails.

pub mod block_pos;
pub mod chunk_levels;
pub mod chunk_loading;
pub mod chunk_pos;
pub mod chunk_view_lut;
pub mod client_tick_end;
pub mod detector_rail;
pub mod sculk;
pub mod sculk_patch;
