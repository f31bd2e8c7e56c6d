//! Weighted shuffling of a track collection: a weight table built from a
//! source collection and a user-edited override file, weighted sampling from
//! it, the snapshot of a weighted playlist, and the state machine that keeps a
//! remote playback queue topped up.
pub mod track;
pub mod overrides;
pub mod table;
pub mod sampler;
pub mod refill;
pub mod playlist;

pub use track::{Track, SourceItem, ShuffleError};
pub use overrides::{WeightOverride, parse_overrides, parse_override_line, parse_weight_field, split_lines};
pub use table::{WeightEntry, WeightTable, assign_weights};
pub use refill::{QueueRefillController, Phase, Action, Event, BATCH_SIZE, REQUEUE_DEPTH, POLL_INTERVAL_MS};
pub use playlist::{PlaylistSummary, find_playlist};
