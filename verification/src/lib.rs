//! A network audio relay and mixer.
//!
//! Raw 16-bit PCM arrives from many sources, is buffered per source in a
//! bounded queue, and on every tick the queues that hold enough audio are
//! drained by one frame each and averaged into a single output frame.

pub mod config;
pub mod ingest;
pub mod mixer;
pub mod pcm;
pub mod queue;
pub mod store;
pub mod wav;
