//! The kinds of boot log messages.
use vstd::prelude::*;

verus! {

#[derive(Clone, Copy, PartialEq, Eq, Structural, Debug)]
pub enum LogType {
    Info,
    Success,
    Failed,
    Warning,
}

impl LogType {
    pub open spec fn spec_header(self) -> &'static str {
        match self {
            LogType::Info => "*",
            LogType::Success => "+",
            LogType::Failed => "x",
            LogType::Warning => "!",
        }
    }

    /// The mark shown between brackets before a message of this kind.
    pub fn header(self) -> (r: &'static str)
        ensures
            r == self.spec_header(),
    {
        match self {
            LogType::Info => "*",
            LogType::Success => "+",
            LogType::Failed => "x",
            LogType::Warning => "!",
        }
    }
}

} // verus!
