//! What the operations are for, said of their inputs and results alone.
pub mod jobs;
pub mod batches;
pub mod places;
pub mod scans;
pub mod texts;
pub mod paths;
pub mod commands;
pub mod tools;
pub mod states;
pub mod passes;
pub mod settings;
pub mod reports;
