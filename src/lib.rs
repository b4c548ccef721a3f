//! Core of a spoken-dialogue orchestrator: a streaming segmenter that splits a
//! language model's token stream into speech and action segments, and the
//! turn-coordination rules that decide when the system may ask for new input.

pub mod text;
pub mod coordinator;
pub mod segmenter;
pub mod blocks;
pub mod interpreter;
pub mod llm;
pub mod stt;
