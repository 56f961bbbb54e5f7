//! Turns an encoded bulk-text document of daily workout instructions into a
//! calendar with one all-day event per workout.
//!
//! The pipeline: decode the document, split it at day markers into marker
//! and filler chunks, pair the chunks into workout records, drop the
//! records below a day threshold, and emit one calendar event per
//! remaining record on consecutive dates.

pub mod decoder;
pub mod emitter;
pub mod errors;
pub mod segmenter;
pub mod selector;
pub mod text;
pub mod workout;

pub use decoder::deobfuscation;
pub use emitter::create_calendar_from_input;
pub use emitter::create_workout_calendar;
pub use errors::PlanError;
pub use segmenter::segment;
pub use selector::select;
pub use workout::create_workouts;
pub use workout::Workout;
pub use workout::WorkoutView;
