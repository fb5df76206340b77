//! Synteny plotting core: a decorative XOR pattern, scaffold size tables,
//! first-seen cumulative offset indices and the projection of pairwise
//! alignments into pixel runs.

mod color;
mod offsets;
mod pattern;
mod projector;
mod sizes;

pub use color::{rgb_spec, Color};
pub use offsets::{
    lemma_offsets_concatenate, lemma_offsets_disjoint, lemma_prefix_total_monotonic,
    lemma_prefix_total_push, lemma_resolve_idempotent, lemma_resolve_unknown, order_wf,
    prefix_total, resolve_spec, CumulativeOffsetIndex, ProjectionError,
};
pub use pattern::{
    lemma_pattern_depends_only_on_residue, pattern_color, pattern_grid, pattern_of_residue,
    pattern_spec, residue, PATTERN_MODULUS,
};
pub use projector::{
    lemma_record_color_follows_strand, lemma_short_record_draws_nothing, pixel_run,
    project_alignments, project_record, record_spec, run_spec, scaled_extent, stream_spec,
    strand_color, strand_color_spec, AlignmentRecord, PixelWrite, MIN_ALIGNMENT_LENGTH,
    SCALE_FACTOR,
};
pub use sizes::{rows_map, seq_sum, ScaffoldSizeTable};
