pub mod cleaner;
pub mod freq_map;
pub mod ingest;
pub mod misfit;
pub mod order;
pub mod profile;
pub mod snapshot;
pub mod text;
pub mod tokens;
pub mod word_frequency;
