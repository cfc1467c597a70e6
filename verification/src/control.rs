//! The control dispatcher's fixed vocabulary: which subcommand each lifecycle
//! operation hands the external dictation executable, and how long to wait
//! before re-detecting state afterwards. The spawning itself — detached,
//! outcome ignored — is the caller's business.

use vstd::prelude::*;

verus! {

/// A lifecycle command for the external dictation process.
#[derive(Debug, Clone, Copy, PartialEq, Eq, Structural)]
pub enum ControlCommand {
    Start,
    Stop,
    Suspend,
    Resume,
}

impl ControlCommand {
    /// The single fixed argument the dictation executable is spawned with.
    pub fn subcommand(&self) -> (r: &'static str)
        ensures
            self is Start ==> r@ == "begin"@,
            self is Stop ==> r@ == "end"@,
            self is Suspend ==> r@ == "suspend"@,
            self is Resume ==> r@ == "resume"@,
    {
        match self {
            ControlCommand::Start => "begin",
            ControlCommand::Stop => "end",
            ControlCommand::Suspend => "suspend",
            ControlCommand::Resume => "resume",
        }
    }

    /// Milliseconds to wait after issuing the command before polling state
    /// again: starting loads a model and needs longer than the rest.
    pub fn delay_ms(&self) -> (r: u64)
        ensures
            self is Start ==> r == 500,
            !(self is Start) ==> r == 200,
    {
        match self {
            ControlCommand::Start => 500,
            _ => 200,
        }
    }
}

} // verus!
