use vstd::prelude::*;
use vstd::string::StringExecFns;

verus! {

/// The two error kinds the scripting engine distinguishes: a script that
/// cannot be parsed or evaluated (`ScriptError`) and an `assert` statement
/// whose comparison came out false (`AssertError`).  The runner records the
/// two differently, so they must never be conflated.
#[derive(Debug)]
pub enum Error {
    ScriptError(String),
    AssertError(String),
    ConfigError(String),
}

impl Error {
    /// The human-readable rendering of the error, with the kind as a prefix.
    pub open spec fn message(self) -> Seq<char> {
        match self {
            Error::ScriptError(m) => "Script error: "@ + m@,
            Error::AssertError(m) => "Assert error: "@ + m@,
            Error::ConfigError(m) => "Config error: "@ + m@,
        }
    }

    pub fn to_string(&self) -> (s: String)
        ensures
            s@ == self.message(),
    {
        match self {
            Error::ScriptError(m) => String::from_str("Script error: ").concat(m.as_str()),
            Error::AssertError(m) => String::from_str("Assert error: ").concat(m.as_str()),
            Error::ConfigError(m) => String::from_str("Config error: ").concat(m.as_str()),
        }
    }
}

} // verus!
