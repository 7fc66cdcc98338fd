//! What is logged.

use vstd::prelude::*;
use crate::text::same_text;

verus! {

/// What decides whether messages are logged.
#[derive(Debug)]
pub struct Logger {
    pub log_level: String,
}

impl Logger {
    pub fn new(log_level: String) -> (r: Logger)
        ensures
            r.log_level == log_level,
    {
        Logger { log_level }
    }

    /// The line to log for a message: none at level `none`.
    pub fn log(&self, message: &str) -> (r: Option<String>)
        ensures
            match r {
                Some(line) => self.log_level@ != "none"@ && line@ == message@,
                None => self.log_level@ == "none"@,
            },
    {
        if same_text(self.log_level.as_str(), "none") {
            None
        } else {
            Some(message.to_owned())
        }
    }
}

} // verus!
