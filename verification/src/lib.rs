//! Rule engine and state-synchronization core of a Spider Solitaire game.
//!
//! The library owns the canonical arrangement of cards, enforces move
//! legality, sequences deferred commits against an animation queue, detects
//! completed runs, and supports snapshot-based undo.  Rendering, input
//! devices, audio and asset handling are external collaborators: they hand
//! the core plain intents and receive pile contents and queued animation
//! requests back.

pub mod cards;
pub mod commit;
pub mod deal;
pub mod laws;
pub mod moves;
pub mod sequences;
pub mod state;
pub mod undo;
