//! A lossless codec for grayscale images: a 12-byte header, a stream of
//! tagged tokens (runs, literals, references into a 64-slot cache of recent
//! values, small deltas) and an 8-byte footer.

mod cache;
mod decode;
mod encode;
mod format;
mod laws;
mod luma;

pub use cache::BrightnessCache;
pub use decode::decode;
pub use encode::{encode, Image, MAX_RUN};
pub use format::{
    fmi_op_difference, fmi_op_gray, fmi_op_index, fmi_op_run, pos_hash, read_header,
    tag_of_byte, write_fmi_header, write_footer, FormatError, Tag, FOOTER_LEN, HEADER_LEN,
};
pub use laws::{
    lemma_header_round_trip, lemma_round_trip, lemma_run_cap, lemma_step_replay,
    lemma_tokens_round_trip,
};
pub use luma::{grayscale, next_frame, rgb_to_brightness, to_rgb_buffer};
