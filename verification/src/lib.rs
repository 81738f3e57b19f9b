//! Turns a rhythm-game chart into a rendered audio preview: the background
//! track with the right effect mixed in at the right sample for every note.
//!
//! The work has two halves. *Timing* resolves the beats of a chart to
//! playback times over its tempo changes ([`tempo`]) and sorts the notes into
//! the instants and the merged holds of each effect ([`timing`], [`order`],
//! [`holds`]). *Mixing* cuts those into tasks that share nothing
//! ([`partition`], [`synthesis`]), renders each into a buffer of its own
//! ([`sound`]), and folds the buffers into one track ([`merger`]). What a
//! caller may set for a run is in [`config`].
//!
//! All quantities are integers. Beats, tempi, gains and times are counted in
//! millionths ([`units`]), samples are signed 16 bit, and sums of samples
//! clip. Nothing here reads a file, opens a socket or starts a thread: the
//! caller fetches and decodes, runs the tasks where it likes, and encodes the
//! result.

pub mod codec;
pub mod config;
pub mod console;
pub mod effect;
pub mod holds;
pub mod level;
pub mod merger;
pub mod order;
pub mod partition;
pub mod server;
pub mod sonolus;
pub mod sound;
pub mod synthesis;
pub mod tempo;
pub mod text;
pub mod timing;
pub mod units;
pub mod vocabulary;

pub use crate::synthesis::synthesis;
pub use crate::timing::get_sound_timings;
