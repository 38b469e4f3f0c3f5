use vstd::prelude::*;

verus! {

/// A structured record extracted from one matching log line.
pub struct LogEntry {
    /// The literal matched timestamp, shaped `YYYY-MM-DD HH:MM:SS`.
    pub timestamp: String,
    /// The literal token inside the line's bracketed segment.
    pub level: String,
    /// The remainder of the line after the bracketed level token.
    pub message: String,
}

/// The mathematical value of a `LogEntry`: its three fields as
/// character sequences.
#[verifier::ext_equal]
pub ghost struct LogEntryView {
    pub timestamp: Seq<char>,
    pub level: Seq<char>,
    pub message: Seq<char>,
}

impl View for LogEntry {
    type V = LogEntryView;

    open spec fn view(&self) -> LogEntryView {
        LogEntryView {
            timestamp: self.timestamp@,
            level: self.level@,
            message: self.message@,
        }
    }
}

/// The views of a sequence of entries, in order.
pub open spec fn views_of(s: Seq<LogEntry>) -> Seq<LogEntryView> {
    s.map_values(|e: LogEntry| e@)
}

impl Clone for LogEntry {
    fn clone(&self) -> (r: Self)
        ensures
            r == *self,
    {
        LogEntry {
            timestamp: self.timestamp.clone(),
            level: self.level.clone(),
            message: self.message.clone(),
        }
    }
}

} // verus!
