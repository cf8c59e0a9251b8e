use vstd::prelude::*;

pub mod batch;
pub mod batch_laws;
pub mod block_file;
pub mod block_laws;
pub mod block_output;
pub mod block_trace;
pub mod cache;
pub mod cache_laws;
pub mod diff_laws;
pub mod events;
pub mod filter;
pub mod filter_laws;
pub mod formatter;
pub mod formatter_laws;
pub mod frame;
pub mod frame_laws;
pub mod listener;
pub mod listener_laws;
pub mod ordered;
pub mod output_laws;
pub mod overlay;
pub mod overlay_laws;
pub mod primitives;
pub mod report_laws;
pub mod rlp_codec;
pub mod simulate;
pub mod simulate_laws;
pub mod state_diff;
pub mod text;
pub mod text_laws;
pub mod trace_laws;
pub mod view_laws;

verus! {

} // verus!
