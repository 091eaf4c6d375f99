//! The error of the framework.

use vstd::prelude::*;
use vstd::string::StringExecFns;

verus! {

/// Why an application could not be run.
#[derive(Debug, PartialEq, Eq)]
pub enum Error {
    /// The platform failed: the event loop, a window.
    Platform(String),
    /// What the application asked for does not fit together.
    Config(String),
}

impl Error {
    /// The error as a line of text.
    pub open spec fn shown(&self) -> Seq<char> {
        match self {
            Error::Platform(message) => "平台错误："@ + message@,
            Error::Config(message) => "配置错误："@ + message@,
        }
    }

    /// The error as a line of text.
    pub fn display(&self) -> (line: String)
        ensures
            line@ == self.shown(),
    {
        match self {
            Error::Platform(message) => {
                let line = "平台错误：".to_owned();
                line.concat(message.as_str())
            },
            Error::Config(message) => {
                let line = "配置错误：".to_owned();
                line.concat(message.as_str())
            },
        }
    }
}

} // verus!
