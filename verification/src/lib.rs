//! A bounded, persisted clipboard history: the decision logic of a
//! clipboard watcher (sampling, deduplication, blank filtering, FIFO
//! retention), its on-disk codec with a proved round trip, and the
//! browser's view state machine (search filtering, selection, restore).

pub mod codec;
pub mod history;
pub mod sampler;
pub mod snapshot;
pub mod view;
