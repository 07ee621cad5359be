//! Log model for a user-facing activity view.
//!
//! Front ends show a scrolling log of system events and traffic; the
//! entries and their category prefixes are plain data and live here.

use vstd::prelude::*;

verus! {

/// One entry of the activity log.
pub struct LogEntry {
    pub timestamp: String,
    pub message: String,
    pub msg_type: LogType,
}

/// The category of a log entry.
#[derive(Debug, Clone, Copy, PartialEq, Eq, Structural)]
pub enum LogType {
    System,
    Sent,
    Received,
    Error,
    Info,
}

impl LogType {
    /// The prefix characters of this category.
    pub open spec fn spec_prefix(self) -> Seq<char> {
        match self {
            LogType::System => seq!['[', 'S', 'Y', 'S', ']'],
            LogType::Sent => seq!['[', '>', ']'],
            LogType::Received => seq!['[', '<', ']'],
            LogType::Error => seq!['[', 'E', 'R', 'R', ']'],
            LogType::Info => seq!['[', 'I', 'N', 'F', 'O', ']'],
        }
    }

    /// The textual prefix shown before entries of this category.
    pub fn prefix(&self) -> (r: &'static str)
        ensures
            r@ == self.spec_prefix(),
    {
        match self {
            LogType::System => {
                proof {
                    reveal_strlit("[SYS]");
                }
                "[SYS]"
            },
            LogType::Sent => {
                proof {
                    reveal_strlit("[>]");
                }
                "[>]"
            },
            LogType::Received => {
                proof {
                    reveal_strlit("[<]");
                }
                "[<]"
            },
            LogType::Error => {
                proof {
                    reveal_strlit("[ERR]");
                }
                "[ERR]"
            },
            LogType::Info => {
                proof {
                    reveal_strlit("[INFO]");
                }
                "[INFO]"
            },
        }
    }
}

} // verus!
