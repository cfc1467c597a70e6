//! Core logic of a panel applet that supervises an external speech-dictation
//! process: deriving its run state from OS-reported process status, discovering
//! installed language models, and persisting the user's selected model.
//!
//! All filesystem and process I/O lives outside this crate; the functions here
//! work on plain values (file contents handed in as strings) so that every
//! decision the applet makes is verified.

pub mod control;
pub mod models;
pub mod paths;
pub mod state;
pub mod store;
pub mod text;
