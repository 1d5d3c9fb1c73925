//! Per-round profiling snapshots: file-name timestamps, per-metric series,
//! normalization against a reference metric, and chart bounds.

mod bounds;
mod normalize;
mod order;
mod pipeline;
mod round_name;
mod series;

pub use bounds::{
    artifact_stem, artifact_stems, caption_font_size, clamp_spec, first_free, is_unsafe_file_char,
    max_len, max_time, min_time, sanitized, taken, time_bounds, time_fits, underscored, TimeBounds,
    CAPTION_BASE_SIZE, CAPTION_MAX_SIZE, CAPTION_MIN_SIZE, TIME_PADDING_SECONDS,
};
pub use normalize::{
    divisor_for, lemma_divisor_reconstructs, lemma_reference_divides_itself, min_calls, normalized,
    reference_calls_at, NormalizeError, NormalizedPoint, ReferenceTable,
};
pub use order::{chronological_order, comes_before, is_chronological, lists};
pub use pipeline::{
    chronological_series, file_outcome, ingest, items_in_order, prepare, round_points, round_times,
    rounds_of, DecodePolicy, FileOutcome, Round, RoundFile, RunError,
};
pub use round_name::{
    days_in_month, epoch_seconds_of, fields_of, fits_pattern, is_leap_year, name_timestamp,
    parse_round_name, round_epoch, round_timestamp, RoundTime, TimestampFormatError,
    UTC_OFFSET_WEST_SECONDS,
};
pub use series::{
    add_all, add_point, aggregate, lemma_add_all_concat, lemma_add_point,
    lemma_series_are_named_points, named_points, names_unique, points_of, round_items, Aggregator,
    MetricSeries, Point, RawSample, SeriesView,
};
